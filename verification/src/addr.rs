//! `ip:port` socket addresses, read in the syntax of the standard library's
//! `SocketAddr` parser: `a.b.c.d:port`, or `[ipv6%scope]:port` with the
//! scope optional, where an IPv6 address is eight hex groups, or fewer
//! around one `::`, the last two possibly written as an IPv4 address.

use vstd::prelude::*;

verus! {

/// The value of a digit in the given radix (10 or 16, either case).
pub open spec fn digit_value(c: u8, radix: int) -> Option<int> {
    if 0x30 <= c && c <= 0x39 {
        Some(c - 0x30)
    } else if radix == 16 && 0x61 <= c && c <= 0x66 {
        Some(c - 0x61 + 10)
    } else if radix == 16 && 0x41 <= c && c <= 0x46 {
        Some(c - 0x41 + 10)
    } else {
        None
    }
}

/// The number of digits from position `i` on.
pub open spec fn run_len(s: Seq<u8>, i: int, radix: int) -> nat
    decreases s.len() - i,
{
    if 0 <= i < s.len() && digit_value(s[i], radix) is Some {
        1 + run_len(s, i + 1, radix)
    } else {
        0
    }
}

/// The value of the `k` digits from position `i` on.
pub open spec fn run_value(s: Seq<u8>, i: int, k: nat, radix: int) -> int
    decreases k,
{
    if k == 0 {
        0
    } else {
        run_value(s, i, (k - 1) as nat, radix) * radix + digit_value(s[i + k - 1], radix)->Some_0
    }
}

/// Reads a number at `i`: all the digits there, refused when there are none,
/// more than `max_digits` of them (0: no maximum), a leading zero where
/// `allow_zero_prefix` is false, or a value above `limit`.
pub open spec fn number_at(
    s: Seq<u8>,
    i: int,
    radix: int,
    max_digits: int,
    allow_zero_prefix: bool,
    limit: int,
) -> Option<(int, int)> {
    let k = run_len(s, i, radix);
    if k == 0 {
        None
    } else if max_digits > 0 && k > max_digits {
        None
    } else if !allow_zero_prefix && s[i] == 0x30 && k > 1 {
        None
    } else if run_value(s, i, k, radix) > limit {
        None
    } else {
        Some((run_value(s, i, k, radix), i + k))
    }
}

pub open spec fn byte_at(s: Seq<u8>, i: int, c: u8) -> bool {
    0 <= i < s.len() && s[i] == c
}

/// An IPv4 address at `i`: four decimal octets separated by dots.
pub open spec fn ipv4_at(s: Seq<u8>, i: int) -> Option<(Seq<u8>, int)> {
    match number_at(s, i, 10, 3, false, 255) {
        None => None,
        Some((a, p1)) => if !byte_at(s, p1, 0x2e) {
            None
        } else {
            match number_at(s, p1 + 1, 10, 3, false, 255) {
                None => None,
                Some((b, p2)) => if !byte_at(s, p2, 0x2e) {
                    None
                } else {
                    match number_at(s, p2 + 1, 10, 3, false, 255) {
                        None => None,
                        Some((c, p3)) => if !byte_at(s, p3, 0x2e) {
                            None
                        } else {
                            match number_at(s, p3 + 1, 10, 3, false, 255) {
                                None => None,
                                Some((d, p4)) => Some(
                                    (seq![a as u8, b as u8, c as u8, d as u8], p4),
                                ),
                            }
                        },
                    }
                },
            }
        },
    }
}

/// The groups of an IPv6 address read from `pos`, slot `idx` on, at most
/// `limit` slots: each slot after the first is preceded by a colon; an IPv4
/// address fills two slots and ends the groups. Returns the groups, the
/// position after them, and whether an IPv4 address ended them.
pub open spec fn groups_at(s: Seq<u8>, pos: int, idx: int, limit: int) -> (Seq<u16>, int, bool)
    decreases limit - idx,
{
    if idx >= limit {
        (Seq::<u16>::empty(), pos, false)
    } else {
        let sep_ok = idx == 0 || byte_at(s, pos, 0x3a);
        let start = if idx == 0 {
            pos
        } else {
            pos + 1
        };
        if sep_ok && idx < limit - 1 && ipv4_at(s, start) is Some {
            let (o, q) = ipv4_at(s, start)->Some_0;
            (seq![(o[0] * 256 + o[1]) as u16, (o[2] * 256 + o[3]) as u16], q, true)
        } else if sep_ok && number_at(s, start, 16, 4, true, 0xffff) is Some {
            let (g, q) = number_at(s, start, 16, 4, true, 0xffff)->Some_0;
            let (rest, e, v4) = groups_at(s, q, idx + 1, limit);
            (seq![g as u16] + rest, e, v4)
        } else {
            (Seq::<u16>::empty(), pos, false)
        }
    }
}

/// An IPv6 address at `i`: eight groups, or fewer groups, `::`, and fewer
/// groups, the gap standing for zero groups.
pub open spec fn ipv6_at(s: Seq<u8>, i: int) -> Option<(Seq<u16>, int)> {
    let (head, p, head_v4) = groups_at(s, i, 0, 8);
    if head.len() == 8 {
        Some((head, p))
    } else if head_v4 {
        None
    } else if !(byte_at(s, p, 0x3a) && byte_at(s, p + 1, 0x3a)) {
        None
    } else {
        let (tail, e, _) = groups_at(s, p + 2, 0, 7 - head.len());
        Some((head + Seq::new((8 - head.len() - tail.len()) as nat, |k: int| 0u16) + tail, e))
    }
}

/// A port at `i`: a colon and a decimal number up to 65535, leading zeros allowed.
pub open spec fn port_at(s: Seq<u8>, i: int) -> Option<(int, int)> {
    if byte_at(s, i, 0x3a) {
        number_at(s, i + 1, 10, 0, true, 0xffff)
    } else {
        None
    }
}

/// What a socket address holds.
pub enum AddrModel {
    V4 { octets: Seq<u8>, port: u16 },
    V6 { segments: Seq<u16>, scope_id: u32, port: u16 },
}

/// The socket address that the bytes spell, if they spell one.
pub open spec fn socket_addr_parse(s: Seq<u8>) -> Option<AddrModel> {
    match ipv4_at(s, 0) {
        Some((o, p)) if port_at(s, p) is Some => {
            let (port, e) = port_at(s, p)->Some_0;
            if e == s.len() {
                Some(AddrModel::V4 { octets: o, port: port as u16 })
            } else {
                None
            }
        },
        _ => if !byte_at(s, 0, 0x5b) {
            None
        } else {
            match ipv6_at(s, 1) {
                None => None,
                Some((g, p)) => {
                    let (scope, q) = if byte_at(s, p, 0x25) && number_at(
                        s,
                        p + 1,
                        10,
                        0,
                        true,
                        0xffff_ffff,
                    ) is Some {
                        number_at(s, p + 1, 10, 0, true, 0xffff_ffff)->Some_0
                    } else {
                        (0, p)
                    };
                    if !byte_at(s, q, 0x5d) {
                        None
                    } else {
                        match port_at(s, q + 1) {
                            Some((port, e)) if e == s.len() => Some(
                                AddrModel::V6 {
                                    segments: g,
                                    scope_id: scope as u32,
                                    port: port as u16,
                                },
                            ),
                            _ => None,
                        }
                    }
                },
            }
        },
    }
}

/// Whether a string is a socket address.
pub open spec fn is_socket_addr(s: Seq<char>) -> bool {
    socket_addr_parse(vstd::utf8::encode_utf8(s)) is Some
}


fn digit_val(c: u8, radix: u8) -> (r: Option<u8>)
    requires
        radix == 10 || radix == 16,
    ensures
        match digit_value(c, radix as int) {
            Some(v) => r == Some(v as u8),
            None => r is None,
        },
{
    if 0x30 <= c && c <= 0x39 {
        Some(c - 0x30)
    } else if radix == 16 && 0x61 <= c && c <= 0x66 {
        Some(c - 0x61 + 10)
    } else if radix == 16 && 0x41 <= c && c <= 0x46 {
        Some(c - 0x41 + 10)
    } else {
        None
    }
}

proof fn lemma_digit_range(c: u8, radix: int)
    requires
        radix == 10 || radix == 16,
        digit_value(c, radix) is Some,
    ensures
        0 <= digit_value(c, radix)->Some_0 < radix,
{
}

proof fn lemma_run_digits(s: Seq<u8>, i: int, radix: int, m: int)
    requires
        0 <= m < run_len(s, i, radix),
    ensures
        digit_value(s[i + m], radix) is Some,
    decreases m,
{
    if m > 0 {
        lemma_run_digits(s, i + 1, radix, m - 1);
    }
}

proof fn lemma_run_value_mono(s: Seq<u8>, i: int, radix: int, j: nat, k: nat)
    requires
        radix == 10 || radix == 16,
        j <= k <= run_len(s, i, radix),
    ensures
        0 <= run_value(s, i, j, radix) <= run_value(s, i, k, radix),
    decreases k,
{
    if k > j {
        lemma_run_value_mono(s, i, radix, j, (k - 1) as nat);
        lemma_run_digits(s, i, radix, k - 1);
        lemma_digit_range(s[i + k - 1], radix);
        let a = run_value(s, i, (k - 1) as nat, radix);
        let d = digit_value(s[i + k - 1], radix)->Some_0;
        assert(a <= a * radix + d) by (nonlinear_arith)
            requires
                a >= 0,
                radix >= 1,
                d >= 0,
        ;
    } else if k > 0 {
        lemma_run_value_mono(s, i, radix, (k - 1) as nat, (k - 1) as nat);
        lemma_run_digits(s, i, radix, k - 1);
        lemma_digit_range(s[i + k - 1], radix);
        let a = run_value(s, i, (k - 1) as nat, radix);
        let d = digit_value(s[i + k - 1], radix)->Some_0;
        assert(0 <= a * radix + d) by (nonlinear_arith)
            requires
                a >= 0,
                radix >= 1,
                d >= 0,
        ;
    }
}

fn read_number(
    s: &[u8],
    i: usize,
    radix: u8,
    max_digits: usize,
    allow_zero_prefix: bool,
    limit: u64,
) -> (r: Option<(u64, usize)>)
    requires
        i <= s@.len(),
        radix == 10 || radix == 16,
        limit <= u32::MAX,
    ensures
        match number_at(s@, i as int, radix as int, max_digits as int, allow_zero_prefix, limit as int) {
            Some((v, e)) => r == Some((v as u64, e as usize)) && 0 <= v <= limit && i < e <= s@.len(),
            None => r is None,
        },
        r matches Some((v, e)) ==> v <= limit && i < e <= s@.len(),
{
    let n = s.len();
    let mut j: usize = i;
    let mut v: u64 = 0;
    while j < n && digit_val(s[j], radix).is_some()
        invariant
            n == s@.len(),
            i <= j <= n,
            radix == 10 || radix == 16,
            limit <= u32::MAX,
            v == run_value(s@, i as int, (j - i) as nat, radix as int),
            v <= limit,
            run_len(s@, i as int, radix as int) == (j - i) + run_len(s@, j as int, radix as int),
            max_digits > 0 ==> j - i <= max_digits,
        decreases n - j,
    {
        let d = digit_val(s[j], radix).unwrap();
        proof {
            lemma_digit_range(s@[j as int], radix as int);
            assert(v * radix <= 0xffff_ffff * 16) by (nonlinear_arith)
                requires
                    v <= 0xffff_ffff,
                    radix <= 16,
            ;
        }
        v = v * (radix as u64) + (d as u64);
        j = j + 1;
        proof {
            lemma_run_value_mono(s@, i as int, radix as int, (j - i) as nat, run_len(s@, i as int, radix as int));
        }
        if max_digits > 0 && j - i > max_digits {
            return None;
        }
        if v > limit {
            return None;
        }
    }
    if j == i {
        return None;
    }
    if !allow_zero_prefix && s[i] == 0x30 && j - i > 1 {
        return None;
    }
    proof {
        lemma_number_bounds(s@, i as int, radix as int, max_digits as int, allow_zero_prefix, limit as int);
    }
    Some((v, j))
}


fn byte_is(s: &[u8], i: usize, c: u8) -> (r: bool)
    ensures
        r == byte_at(s@, i as int, c),
{
    i < s.len() && s[i] == c
}

fn read_ipv4(s: &[u8], i: usize) -> (r: Option<([u8; 4], usize)>)
    requires
        i <= s@.len(),
    ensures
        match ipv4_at(s@, i as int) {
            Some((o, e)) => r matches Some((a, f)) && a@ == o && f == e,
            None => r is None,
        },
        r matches Some((_, f)) ==> i < f <= s@.len(),
{
    let _n = s.len();
    let (a, p1) = match read_number(s, i, 10, 3, false, 255) {
        Some(x) => x,
        None => return None,
    };
    if !byte_is(s, p1, 0x2e) {
        return None;
    }
    let (b, p2) = match read_number(s, p1 + 1, 10, 3, false, 255) {
        Some(x) => x,
        None => return None,
    };
    if !byte_is(s, p2, 0x2e) {
        return None;
    }
    let (c, p3) = match read_number(s, p2 + 1, 10, 3, false, 255) {
        Some(x) => x,
        None => return None,
    };
    if !byte_is(s, p3, 0x2e) {
        return None;
    }
    let (d, p4) = match read_number(s, p3 + 1, 10, 3, false, 255) {
        Some(x) => x,
        None => return None,
    };
    let octets = [a as u8, b as u8, c as u8, d as u8];
    assert(octets@ =~= seq![a as u8, b as u8, c as u8, d as u8]);
    Some((octets, p4))
}

proof fn lemma_number_bounds(s: Seq<u8>, i: int, radix: int, max_digits: int, z: bool, limit: int)
    requires
        number_at(s, i, radix, max_digits, z, limit) is Some,
        radix == 10 || radix == 16,
    ensures
        ({
            let (v, e) = number_at(s, i, radix, max_digits, z, limit)->Some_0;
            0 <= v <= limit && i < e <= s.len()
        }),
{
    let k = run_len(s, i, radix);
    lemma_run_value_mono(s, i, radix, k, k);
    lemma_run_len_bound(s, i, radix);
}

proof fn lemma_run_len_bound(s: Seq<u8>, i: int, radix: int)
    ensures
        run_len(s, i, radix) > 0 ==> 0 <= i && i + run_len(s, i, radix) <= s.len(),
    decreases s.len() - i,
{
    if 0 <= i < s.len() && digit_value(s[i], radix) is Some {
        lemma_run_len_bound(s, i + 1, radix);
    }
}

fn read_groups(s: &[u8], pos: usize, idx: usize, limit: usize) -> (r: (Vec<u16>, usize, bool))
    requires
        pos <= s@.len(),
        idx <= limit <= 8,
    ensures
        r.0@ == groups_at(s@, pos as int, idx as int, limit as int).0,
        r.1 == groups_at(s@, pos as int, idx as int, limit as int).1,
        r.2 == groups_at(s@, pos as int, idx as int, limit as int).2,
        pos <= r.1 <= s@.len(),
        r.0@.len() <= limit - idx,
    decreases limit - idx,
{
    let _n = s.len();
    if idx >= limit {
        return (Vec::new(), pos, false);
    }
    let sep_ok = idx == 0 || byte_is(s, pos, 0x3a);
    let start = if idx == 0 {
        pos
    } else if sep_ok {
        pos + 1
    } else {
        pos
    };
    if sep_ok && idx < limit - 1 {
        match read_ipv4(s, start) {
            Some((o, q)) => {
                let mut g: Vec<u16> = Vec::new();
                g.push((o[0] as u16) * 256 + (o[1] as u16));
                g.push((o[2] as u16) * 256 + (o[3] as u16));
                assert(g@ =~= seq![(o@[0] * 256 + o@[1]) as u16, (o@[2] * 256 + o@[3]) as u16]);
                return (g, q, true);
            },
            None => {},
        }
    }
    if sep_ok {
        match read_number(s, start, 16, 4, true, 0xffff) {
            Some((g, q)) => {
                proof {
                    lemma_number_bounds(s@, start as int, 16, 4, true, 0xffff);
                }
                let (rest, e, v4) = read_groups(s, q, idx + 1, limit);
                let mut out: Vec<u16> = Vec::new();
                out.push(g as u16);
                let mut k: usize = 0;
                while k < rest.len()
                    invariant
                        k <= rest@.len(),
                        out@ =~= seq![g as u16] + rest@.subrange(0, k as int),
                    decreases rest@.len() - k,
                {
                    out.push(rest[k]);
                    k = k + 1;
                }
                assert(rest@.subrange(0, rest@.len() as int) =~= rest@);
                return (out, e, v4);
            },
            None => {},
        }
    }
    (Vec::new(), pos, false)
}

fn read_ipv6(s: &[u8], i: usize) -> (r: Option<([u16; 8], usize)>)
    requires
        i <= s@.len(),
    ensures
        match ipv6_at(s@, i as int) {
            Some((g, e)) => r matches Some((a, f)) && a@ == g && f == e,
            None => r is None,
        },
        r matches Some((_, f)) ==> f <= s@.len(),
{
    let _n = s.len();
    let (head, p, head_v4) = read_groups(s, i, 0, 8);
    if head.len() == 8 {
        let a = [head[0], head[1], head[2], head[3], head[4], head[5], head[6], head[7]];
        assert(a@ =~= head@);
        return Some((a, p));
    }
    if head_v4 {
        return None;
    }
    if !(byte_is(s, p, 0x3a) && byte_is(s, p + 1, 0x3a)) {
        return None;
    }
    let (tail, e, _) = read_groups(s, p + 2, 0, 7 - head.len());
    let mut a: [u16; 8] = [0; 8];
    let hl = head.len();
    let tl = tail.len();
    let mut k: usize = 0;
    while k < hl
        invariant
            hl == head@.len(),
            hl < 8,
            k <= hl,
            forall|m: int| 0 <= m < k ==> a@[m] == head@[m],
            forall|m: int| k <= m < 8 ==> a@[m] == 0,
        decreases hl - k,
    {
        a[k] = head[k];
        k = k + 1;
    }
    let mut t: usize = 0;
    while t < tl
        invariant
            hl == head@.len(),
            tl == tail@.len(),
            hl + tl <= 7,
            t <= tl,
            forall|m: int| 0 <= m < hl ==> a@[m] == head@[m],
            forall|m: int| hl <= m < 8 - tl ==> a@[m] == 0,
            forall|m: int| 8 - tl <= m < 8 - tl + t ==> a@[m] == tail@[m - (8 - tl)],
            forall|m: int| 8 - tl + t <= m < 8 ==> a@[m] == 0,
        decreases tl - t,
    {
        a[8 - tl + t] = tail[t];
        t = t + 1;
    }
    assert(a@ =~= head@ + Seq::new((8 - hl - tl) as nat, |m: int| 0u16) + tail@);
    Some((a, e))
}

fn read_port(s: &[u8], i: usize) -> (r: Option<(u64, usize)>)
    requires
        i <= s@.len(),
    ensures
        match port_at(s@, i as int) {
            Some((v, e)) => r == Some((v as u64, e as usize)) && 0 <= v <= 0xffff && i < e <= s@.len(),
            None => r is None,
        },
        r matches Some((v, e)) ==> v <= 0xffff && i < e <= s@.len(),
{
    let _n = s.len();
    if byte_is(s, i, 0x3a) {
        read_number(s, i + 1, 10, 0, true, 0xffff)
    } else {
        None
    }
}

/// A socket address.
#[derive(Debug, Clone, Copy, PartialEq, Eq)]
pub enum SocketAddress {
    V4 { octets: [u8; 4], port: u16 },
    V6 { segments: [u16; 8], scope_id: u32, port: u16 },
}

impl SocketAddress {
    pub open spec fn model(&self) -> AddrModel {
        match self {
            SocketAddress::V4 { octets, port } => AddrModel::V4 { octets: octets@, port: *port },
            SocketAddress::V6 { segments, scope_id, port } => AddrModel::V6 {
                segments: segments@,
                scope_id: *scope_id,
                port: *port,
            },
        }
    }
}

/// Reads a socket address from a string, as `SocketAddr`'s `FromStr` does.
pub fn parse_socket_addr(text: &str) -> (r: Option<SocketAddress>)
    ensures
        match socket_addr_parse(vstd::utf8::encode_utf8(text@)) {
            Some(m) => r matches Some(a) && a.model() == m,
            None => r is None,
        },
{
    let s = text.as_bytes();
    let n = s.len();
    match read_ipv4(s, 0) {
        Some((o, p)) => {
            match read_port(s, p) {
                Some((port, e)) => {
                    if e == n {
                        return Some(SocketAddress::V4 { octets: o, port: port as u16 });
                    } else {
                        return None;
                    }
                },
                None => {},
            }
        },
        None => {},
    }
    if !byte_is(s, 0, 0x5b) {
        return None;
    }
    let (g, p) = match read_ipv6(s, 1) {
        Some(x) => x,
        None => return None,
    };
    let mut scope: u64 = 0;
    let mut q: usize = p;
    if byte_is(s, p, 0x25) {
        match read_number(s, p + 1, 10, 0, true, 0xffff_ffff) {
            Some((v, e)) => {
                proof {
                    lemma_number_bounds(s@, p + 1, 10, 0, true, 0xffff_ffff);
                }
                scope = v;
                q = e;
            },
            None => {},
        }
    }
    if !byte_is(s, q, 0x5d) {
        return None;
    }
    match read_port(s, q + 1) {
        Some((port, e)) => {
            if e == n {
                Some(SocketAddress::V6 { segments: g, scope_id: scope as u32, port: port as u16 })
            } else {
                None
            }
        },
        None => None,
    }
}

/// The lower-case hex digit of a value below 16.
pub open spec fn hex_char(d: int) -> u8 {
    if d < 10 {
        (0x30 + d) as u8
    } else {
        (0x61 + d - 10) as u8
    }
}

/// An IPv6 group written in full: four hex digits, zero padded.
pub open spec fn group_text(g: u16) -> Seq<u8> {
    seq![
        hex_char((g / 4096) as int),
        hex_char(((g / 256) % 16) as int),
        hex_char(((g / 16) % 16) as int),
        hex_char((g % 16) as int),
    ]
}

/// Groups written in full, separated by colons.
pub open spec fn groups_text(gs: Seq<u16>) -> Seq<u8>
    decreases gs.len(),
{
    if gs.len() == 0 {
        Seq::<u8>::empty()
    } else if gs.len() == 1 {
        group_text(gs[0])
    } else {
        group_text(gs[0]) + seq![0x3au8] + groups_text(gs.drop_first())
    }
}

/// A port written as five decimal digits, zero padded.
pub open spec fn port_text(p: u16) -> Seq<u8> {
    seq![
        (0x30 + p / 10000) as u8,
        (0x30 + (p / 1000) % 10) as u8,
        (0x30 + (p / 100) % 10) as u8,
        (0x30 + (p / 10) % 10) as u8,
        (0x30 + p % 10) as u8,
    ]
}

/// `[g0:g1:g2:g3:g4:g5:g6:g7]:port`, every group as four hex digits with
/// its leading zeros and the port as five decimal digits.
pub open spec fn full_v6_text(gs: Seq<u16>, port: u16) -> Seq<u8> {
    seq![0x5bu8] + groups_text(gs) + seq![0x5du8, 0x3au8] + port_text(port)
}

proof fn lemma_hex_char(d: int)
    requires
        0 <= d < 16,
    ensures
        digit_value(hex_char(d), 16) == Some(d),
        hex_char(d) != 0x2e,
{
}

/// Four hex digits, leading zeros included, read as one group.
proof fn lemma_group_number(g: u16, pre: Seq<u8>, rest: Seq<u8>)
    requires
        rest.len() > 0,
        digit_value(rest[0], 16) is None,
    ensures
        number_at(pre + group_text(g) + rest, pre.len() as int, 16, 4, true, 0xffff) == Some(
            (g as int, pre.len() + 4int),
        ),
{
    let s = pre + group_text(g) + rest;
    let i = pre.len() as int;
    let d0 = g / 4096;
    let d1 = (g / 256) % 16;
    let d2 = (g / 16) % 16;
    let d3 = g % 16;
    lemma_hex_char(d0 as int);
    lemma_hex_char(d1 as int);
    lemma_hex_char(d2 as int);
    lemma_hex_char(d3 as int);
    assert(s[i] == hex_char(d0 as int));
    assert(s[i + 1] == hex_char(d1 as int));
    assert(s[i + 2] == hex_char(d2 as int));
    assert(s[i + 3] == hex_char(d3 as int));
    assert(s[i + 4] == rest[0]);
    assert(run_len(s, i + 4, 16) == 0);
    assert(run_len(s, i + 3, 16) == 1);
    assert(run_len(s, i + 2, 16) == 2);
    assert(run_len(s, i + 1, 16) == 3);
    assert(run_len(s, i, 16) == 4);
    assert(run_value(s, i, 0, 16) == 0);
    assert(run_value(s, i, 1, 16) == d0);
    assert(run_value(s, i, 2, 16) == d0 * 16 + d1);
    assert(run_value(s, i, 3, 16) == (d0 * 16 + d1) * 16 + d2);
    assert(run_value(s, i, 4, 16) == ((d0 * 16 + d1) * 16 + d2) * 16 + d3);
    assert(g == ((g / 4096 * 16 + (g / 256) % 16) * 16 + (g / 16) % 16) * 16 + g % 16) by (bit_vector);
}

/// Four hex digits followed by a colon or a bracket are no IPv4 address.
proof fn lemma_group_not_ipv4(s: Seq<u8>, i: int)
    requires
        0 <= i,
        i + 4 < s.len(),
        forall|j: int| i <= j < i + 4 ==> #[trigger] digit_value(s[j], 16) is Some,
        s[i + 4] == 0x3a || s[i + 4] == 0x5d,
    ensures
        ipv4_at(s, i) is None,
{
    match number_at(s, i, 10, 3, false, 255) {
        Some((a, p1)) => {
            assert(p1 == i + run_len(s, i, 10));
            assert(i < p1 <= i + 3);
            assert(digit_value(s[p1], 16) is Some);
            assert(!byte_at(s, p1, 0x2e));
        },
        None => {},
    }
}

/// Reading groups stops, reading none, at a closing bracket or at `::`.
proof fn lemma_groups_stop(s: Seq<u8>, pos: int, idx: int, limit: int)
    requires
        0 <= idx < limit,
        0 <= pos < s.len(),
        s[pos] == 0x5d || (s[pos] == 0x3a && pos + 1 < s.len() && s[pos + 1] == 0x3a),
    ensures
        groups_at(s, pos, idx, limit) == (Seq::<u16>::empty(), pos, false),
{
    let start = if idx == 0 {
        pos
    } else {
        pos + 1
    };
    if idx == 0 || s[pos] == 0x3a {
        assert(run_len(s, start, 10) == 0);
        assert(run_len(s, start, 16) == 0);
        assert(ipv4_at(s, start) is None);
    }
}

/// Groups written in full read back as the groups, from the given slot on,
/// up to a closing bracket, a `::`, or the last slot.
#[verifier::rlimit(60)]
#[verifier::spinoff_prover]
proof fn lemma_groups_read(gs: Seq<u16>, pre: Seq<u8>, rest: Seq<u8>, idx: int, limit: int)
    requires
        1 <= gs.len(),
        0 <= idx,
        idx + gs.len() <= limit <= 8,
        idx == 0 || (pre.len() >= 1 && pre.last() == 0x3a),
        rest.len() >= 2,
        rest[0] == 0x5d || (rest[0] == 0x3a && rest[1] == 0x3a),
    ensures
        groups_text(gs).len() == 5 * gs.len() - 1,
        groups_at(
            pre + groups_text(gs) + rest,
            if idx == 0 {
                pre.len() as int
            } else {
                pre.len() - 1
            },
            idx,
            limit,
        ) == (gs, pre.len() + groups_text(gs).len() as int, false),
    decreases gs.len(),
{
    let s = pre + groups_text(gs) + rest;
    let start = pre.len() as int;
    let pos = if idx == 0 {
        start
    } else {
        start - 1
    };
    let g = gs[0];
    let after = if gs.len() == 1 {
        rest
    } else {
        seq![0x3au8] + groups_text(gs.drop_first()) + rest
    };
    assert(s =~= pre + group_text(g) + after);
    assert(after[0] == 0x3a || after[0] == 0x5d);
    lemma_group_number(g, pre, after);
    if idx > 0 {
        assert(s[pos] == 0x3a);
    }
    assert(ipv4_at(s, start) is None) by {
        lemma_hex_char((g / 4096) as int);
        lemma_hex_char(((g / 256) % 16) as int);
        lemma_hex_char(((g / 16) % 16) as int);
        lemma_hex_char((g % 16) as int);
        assert forall|j: int| start <= j < start + 4 implies #[trigger] digit_value(s[j], 16) is Some by {
            assert(s[j] == group_text(g)[j - start]);
        }
        assert(s[start + 4] == after[0]);
        lemma_group_not_ipv4(s, start);
    }
    if gs.len() == 1 {
        if idx + 1 < limit {
            assert(s[start + 5] == rest[1]);
            lemma_groups_stop(s, start + 4, idx + 1, limit);
        }
        assert(groups_at(s, start + 4, idx + 1, limit) == (Seq::<u16>::empty(), start + 4, false));
        assert(seq![g] =~= gs);
        assert(seq![g] + Seq::<u16>::empty() =~= gs);
    } else {
        let tail = gs.drop_first();
        let pre2 = pre + group_text(g) + seq![0x3au8];
        assert(s =~= pre2 + groups_text(tail) + rest);
        lemma_groups_read(tail, pre2, rest, idx + 1, limit);
        assert(seq![g] + tail =~= gs);
    }
}

/// A port written as five digits, leading zeros included, reads as the port.
proof fn lemma_port_number(p: u16, pre: Seq<u8>)
    ensures
        number_at(pre + port_text(p), pre.len() as int, 10, 0, true, 0xffff) == Some(
            (p as int, pre.len() + 5int),
        ),
{
    let s = pre + port_text(p);
    let i = pre.len() as int;
    assert(run_len(s, i + 5, 10) == 0);
    assert(run_len(s, i + 4, 10) == 1);
    assert(run_len(s, i + 3, 10) == 2);
    assert(run_len(s, i + 2, 10) == 3);
    assert(run_len(s, i + 1, 10) == 4);
    assert(run_len(s, i, 10) == 5);
    let d0 = p / 10000;
    let d1 = (p / 1000) % 10;
    let d2 = (p / 100) % 10;
    let d3 = (p / 10) % 10;
    let d4 = p % 10;
    assert(digit_value(s[i], 10) == Some(d0 as int));
    assert(digit_value(s[i + 1], 10) == Some(d1 as int));
    assert(digit_value(s[i + 2], 10) == Some(d2 as int));
    assert(digit_value(s[i + 3], 10) == Some(d3 as int));
    assert(digit_value(s[i + 4], 10) == Some(d4 as int));
    assert(run_value(s, i, 0, 10) == 0);
    assert(run_value(s, i, 1, 10) == d0);
    assert(run_value(s, i, 2, 10) == d0 * 10 + d1);
    assert(run_value(s, i, 3, 10) == (d0 * 10 + d1) * 10 + d2);
    assert(run_value(s, i, 4, 10) == ((d0 * 10 + d1) * 10 + d2) * 10 + d3);
    assert(run_value(s, i, 5, 10) == (((d0 * 10 + d1) * 10 + d2) * 10 + d3) * 10 + d4);
    assert(p == (((p / 10000 * 10 + (p / 1000) % 10) * 10 + (p / 100) % 10) * 10 + (p / 10) % 10) * 10
        + p % 10) by (bit_vector);
}

/// Every IPv6 socket address written in full, each group as four hex digits
/// with its leading zeros (`[2001:0db8:0000:...]`) and the port with its
/// leading zeros, reads back as its eight groups, no scope and its port.
pub proof fn lemma_full_v6_form_reads_back(gs: Seq<u16>, port: u16)
    requires
        gs.len() == 8,
    ensures
        socket_addr_parse(full_v6_text(gs, port)) == Some(
            AddrModel::V6 { segments: gs, scope_id: 0, port },
        ),
{
    let s = full_v6_text(gs, port);
    let tail = seq![0x5du8, 0x3au8] + port_text(port);
    assert(s =~= seq![0x5bu8] + groups_text(gs) + tail);
    lemma_groups_read(gs, seq![0x5bu8], tail, 0, 8);
    assert(ipv6_at(s, 1) == Some((gs, 40int)));
    assert(run_len(s, 0, 10) == 0);
    assert(ipv4_at(s, 0) is None);
    assert(s[40] == 0x5d);
    assert(s[41] == 0x3a);
    let pre = seq![0x5bu8] + groups_text(gs) + seq![0x5du8, 0x3au8];
    assert(s =~= pre + port_text(port));
    lemma_port_number(port, pre);
    assert(port_at(s, 41) == Some((port as int, 47int)));
    assert(s.len() == 47);
}

/// An octet as its shortest decimal digits.
pub open spec fn octet_text(b: u8) -> Seq<u8> {
    if b < 10 {
        seq![(0x30 + b) as u8]
    } else if b < 100 {
        seq![(0x30 + b / 10) as u8, (0x30 + b % 10) as u8]
    } else {
        seq![(0x30 + b / 100) as u8, (0x30 + (b / 10) % 10) as u8, (0x30 + b % 10) as u8]
    }
}

/// `a.b.c.d:port`, the octets in their shortest decimal form and the port
/// as five decimal digits.
pub open spec fn v4_text(o: Seq<u8>, port: u16) -> Seq<u8> {
    octet_text(o[0]) + seq![0x2eu8] + octet_text(o[1]) + seq![0x2eu8] + octet_text(o[2]) + seq![
        0x2eu8,
    ] + octet_text(o[3]) + seq![0x3au8] + port_text(port)
}

/// An octet in its shortest decimal form reads as the octet.
proof fn lemma_octet_number(b: u8, pre: Seq<u8>, rest: Seq<u8>)
    requires
        rest.len() > 0,
        digit_value(rest[0], 10) is None,
    ensures
        number_at(pre + octet_text(b) + rest, pre.len() as int, 10, 3, false, 255) == Some(
            (b as int, pre.len() + octet_text(b).len() as int),
        ),
        1 <= octet_text(b).len() <= 3,
{
    let s = pre + octet_text(b) + rest;
    let i = pre.len() as int;
    let k = octet_text(b).len() as int;
    assert(s[i + k] == rest[0]);
    assert(run_len(s, i + k, 10) == 0);
    assert(run_value(s, i, 0, 10) == 0);
    if b < 10 {
        assert(s[i] == (0x30 + b) as u8);
        assert(run_len(s, i, 10) == 1);
        assert(run_value(s, i, 1, 10) == b);
    } else if b < 100 {
        assert(s[i] == (0x30 + b / 10) as u8);
        assert(s[i + 1] == (0x30 + b % 10) as u8);
        assert(run_len(s, i + 1, 10) == 1);
        assert(run_len(s, i, 10) == 2);
        assert(run_value(s, i, 1, 10) == b / 10);
        assert(run_value(s, i, 2, 10) == (b / 10) * 10 + b % 10);
    } else {
        assert(s[i] == (0x30 + b / 100) as u8);
        assert(s[i + 1] == (0x30 + (b / 10) % 10) as u8);
        assert(s[i + 2] == (0x30 + b % 10) as u8);
        assert(run_len(s, i + 2, 10) == 1);
        assert(run_len(s, i + 1, 10) == 2);
        assert(run_len(s, i, 10) == 3);
        assert(run_value(s, i, 1, 10) == b / 100);
        assert(run_value(s, i, 2, 10) == (b / 100) * 10 + (b / 10) % 10);
        assert(run_value(s, i, 3, 10) == ((b / 100) * 10 + (b / 10) % 10) * 10 + b % 10);
        assert(b == ((b / 100) * 10 + (b / 10) % 10) * 10 + b % 10) by (bit_vector);
    }
}

#[verifier::rlimit(60)]
#[verifier::spinoff_prover]
proof fn lemma_v4_layout(o: Seq<u8>, port: u16)
    requires
        o.len() == 4,
    ensures
        ({
            let s = v4_text(o, port);
            let t0 = octet_text(o[0]);
            let t1 = octet_text(o[1]);
            let t2 = octet_text(o[2]);
            let t3 = octet_text(o[3]);
            let dot = seq![0x2eu8];
            let tail = seq![0x3au8] + port_text(port);
            let p1 = t0.len() as int;
            let p2 = p1 + 1 + t1.len();
            let p3 = p2 + 1 + t2.len();
            let p4 = p3 + 1 + t3.len();
            &&& s == Seq::<u8>::empty() + t0 + (dot + t1 + dot + t2 + dot + t3 + tail)
            &&& s == (t0 + dot) + t1 + (dot + t2 + dot + t3 + tail)
            &&& s == (t0 + dot + t1 + dot) + t2 + (dot + t3 + tail)
            &&& s == (t0 + dot + t1 + dot + t2 + dot) + t3 + tail
            &&& s == (t0 + dot + t1 + dot + t2 + dot + t3 + seq![0x3au8]) + port_text(port)
            &&& s[p1] == 0x2e && s[p2] == 0x2e && s[p3] == 0x2e && s[p4] == 0x3a
            &&& s.len() == p4 + 6
        }),
{
    let s = v4_text(o, port);
    let t0 = octet_text(o[0]);
    let t1 = octet_text(o[1]);
    let t2 = octet_text(o[2]);
    let t3 = octet_text(o[3]);
    let dot = seq![0x2eu8];
    let tail = seq![0x3au8] + port_text(port);
    assert(s =~= Seq::<u8>::empty() + t0 + (dot + t1 + dot + t2 + dot + t3 + tail));
    assert(s =~= (t0 + dot) + t1 + (dot + t2 + dot + t3 + tail));
    assert(s =~= (t0 + dot + t1 + dot) + t2 + (dot + t3 + tail));
    assert(s =~= (t0 + dot + t1 + dot + t2 + dot) + t3 + tail);
    assert(s =~= (t0 + dot + t1 + dot + t2 + dot + t3 + seq![0x3au8]) + port_text(port));
}

/// Every IPv4 socket address written with its octets in shortest decimal
/// form (no leading zeros) and the port with its leading zeros reads back
/// as its four octets and its port.
#[verifier::rlimit(60)]
#[verifier::spinoff_prover]
pub proof fn lemma_v4_form_reads_back(o: Seq<u8>, port: u16)
    requires
        o.len() == 4,
    ensures
        socket_addr_parse(v4_text(o, port)) == Some(AddrModel::V4 { octets: o, port }),
{
    lemma_v4_layout(o, port);
    let s = v4_text(o, port);
    let t0 = octet_text(o[0]);
    let t1 = octet_text(o[1]);
    let t2 = octet_text(o[2]);
    let t3 = octet_text(o[3]);
    let dot = seq![0x2eu8];
    let tail = seq![0x3au8] + port_text(port);
    let p1 = t0.len() as int;
    let p2 = p1 + 1 + t1.len();
    let p3 = p2 + 1 + t2.len();
    let p4 = p3 + 1 + t3.len();
    assert(number_at(s, 0, 10, 3, false, 255) == Some((o[0] as int, p1))) by {
        lemma_octet_number(o[0], Seq::<u8>::empty(), dot + t1 + dot + t2 + dot + t3 + tail);
    }
    assert(number_at(s, p1 + 1, 10, 3, false, 255) == Some((o[1] as int, p2))) by {
        lemma_octet_number(o[1], t0 + dot, dot + t2 + dot + t3 + tail);
    }
    assert(number_at(s, p2 + 1, 10, 3, false, 255) == Some((o[2] as int, p3))) by {
        lemma_octet_number(o[2], t0 + dot + t1 + dot, dot + t3 + tail);
    }
    assert(number_at(s, p3 + 1, 10, 3, false, 255) == Some((o[3] as int, p4))) by {
        lemma_octet_number(o[3], t0 + dot + t1 + dot + t2 + dot, tail);
    }
    assert(seq![o[0], o[1], o[2], o[3]] =~= o);
    assert(ipv4_at(s, 0) == Some((o, p4)));
    assert(port_at(s, p4) == Some((port as int, p4 + 6))) by {
        lemma_port_number(port, t0 + dot + t1 + dot + t2 + dot + t3 + seq![0x3au8]);
    }
}

/// `[head::tail]:port`, every group as four hex digits with its leading
/// zeros and the port as five decimal digits.
pub open spec fn compressed_v6_text(head: Seq<u16>, tail: Seq<u16>, port: u16) -> Seq<u8> {
    seq![0x5bu8] + groups_text(head) + seq![0x3au8, 0x3au8] + groups_text(tail) + seq![0x5du8, 0x3au8]
        + port_text(port)
}

#[verifier::rlimit(60)]
#[verifier::spinoff_prover]
proof fn lemma_compressed_layout(head: Seq<u16>, tail: Seq<u16>, port: u16)
    ensures
        ({
            let s = compressed_v6_text(head, tail, port);
            let hj = groups_text(head);
            let tj = groups_text(tail);
            let cc = seq![0x3au8, 0x3au8];
            let bc = seq![0x5du8, 0x3au8];
            let p = 1 + hj.len() as int;
            let e = p + 2 + tj.len() as int;
            &&& s == seq![0x5bu8] + hj + (cc + tj + bc + port_text(port))
            &&& s == (seq![0x5bu8] + hj + cc) + tj + (bc + port_text(port))
            &&& s == (seq![0x5bu8] + hj + cc + tj + bc) + port_text(port)
            &&& s[0] == 0x5b && s[p] == 0x3a && s[p + 1] == 0x3a && s[e] == 0x5d && s[e + 1] == 0x3a
            &&& s.len() == e + 7
        }),
{
    let s = compressed_v6_text(head, tail, port);
    let hj = groups_text(head);
    let tj = groups_text(tail);
    let cc = seq![0x3au8, 0x3au8];
    let bc = seq![0x5du8, 0x3au8];
    assert(s =~= seq![0x5bu8] + hj + (cc + tj + bc + port_text(port)));
    assert(s =~= (seq![0x5bu8] + hj + cc) + tj + (bc + port_text(port)));
    assert(s =~= (seq![0x5bu8] + hj + cc + tj + bc) + port_text(port));
}

/// Every IPv6 socket address written with `::` between its leading and its
/// trailing groups, each group as four hex digits with its leading zeros,
/// reads back as the leading groups, zero groups for the gap, and the
/// trailing groups; `::` stands for at least one group.
#[verifier::rlimit(60)]
#[verifier::spinoff_prover]
pub proof fn lemma_compressed_v6_form_reads_back(head: Seq<u16>, tail: Seq<u16>, port: u16)
    requires
        head.len() + tail.len() <= 7,
    ensures
        socket_addr_parse(compressed_v6_text(head, tail, port)) == Some(
            AddrModel::V6 {
                segments: head + Seq::new((8 - head.len() - tail.len()) as nat, |k: int| 0u16)
                    + tail,
                scope_id: 0,
                port,
            },
        ),
{
    lemma_compressed_layout(head, tail, port);
    let s = compressed_v6_text(head, tail, port);
    let hj = groups_text(head);
    let tj = groups_text(tail);
    let cc = seq![0x3au8, 0x3au8];
    let bc = seq![0x5du8, 0x3au8];
    let p = 1 + hj.len() as int;
    let e = p + 2 + tj.len() as int;
    let h = head.len() as int;
    assert(groups_at(s, 1, 0, 8) == (head, p, false)) by {
        if head.len() >= 1 {
            lemma_groups_read(head, seq![0x5bu8], cc + tj + bc + port_text(port), 0, 8);
        } else {
            assert(hj =~= Seq::<u8>::empty());
            lemma_groups_stop(s, 1, 0, 8);
            assert(head =~= Seq::<u16>::empty());
        }
    }
    assert(groups_at(s, p + 2, 0, 7 - h) == (tail, e, false)) by {
        if tail.len() >= 1 {
            lemma_groups_read(tail, seq![0x5bu8] + hj + cc, bc + port_text(port), 0, 7 - h);
        } else {
            assert(tj =~= Seq::<u8>::empty());
            assert(tail =~= Seq::<u16>::empty());
            if 7 - h > 0 {
                lemma_groups_stop(s, p + 2, 0, 7 - h);
            }
        }
    }
    assert(ipv6_at(s, 1) == Some(
        (head + Seq::new((8 - head.len() - tail.len()) as nat, |k: int| 0u16) + tail, e),
    ));
    assert(run_len(s, 0, 10) == 0);
    assert(ipv4_at(s, 0) is None);
    assert(port_at(s, e + 1) == Some((port as int, e + 7))) by {
        lemma_port_number(port, seq![0x5bu8] + hj + cc + tj + bc);
    }
}

} // verus!
