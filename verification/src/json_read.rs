//! Reading JSON text as `serde_json` reads it: whitespace between tokens,
//! string literals with every escape JSON has, numbers, and values of any
//! shape that a reader steps over without keeping.

use vstd::prelude::*;

use crate::json::{expect_lit, is_digit, lit_at};

verus! {

/// JSON whitespace: space, tab, line feed and carriage return.
pub open spec fn is_ws(c: u8) -> bool {
    c == 0x20 || c == 0x09 || c == 0x0a || c == 0x0d
}

/// The first position at or after `p` that holds no whitespace.
pub open spec fn skip_ws(buf: Seq<u8>, p: int) -> int
    decreases buf.len() - p,
{
    if 0 <= p < buf.len() && is_ws(buf[p]) {
        skip_ws(buf, p + 1)
    } else {
        p
    }
}

/// The first position at or after `p` that holds no whitespace.
pub fn ws_end(buf: &[u8], p: usize) -> (r: usize)
    requires
        p <= buf@.len(),
    ensures
        r == skip_ws(buf@, p as int),
        p <= r <= buf@.len(),
{
    let n = buf.len();
    let mut i = p;
    while i < n && (buf[i] == 0x20 || buf[i] == 0x09 || buf[i] == 0x0a || buf[i] == 0x0d)
        invariant
            n == buf@.len(),
            p <= i <= n,
            skip_ws(buf@, p as int) == skip_ws(buf@, i as int),
        decreases n - i,
    {
        i = i + 1;
    }
    i
}

/// The value of a hexadecimal digit, in either case.
pub open spec fn hex_digit(c: u8) -> Option<int> {
    if 0x30 <= c && c <= 0x39 {
        Some(c - 0x30)
    } else if 0x61 <= c && c <= 0x66 {
        Some(c - 0x61 + 10)
    } else if 0x41 <= c && c <= 0x46 {
        Some(c - 0x41 + 10)
    } else {
        None
    }
}

/// The number that the four hexadecimal digits at `p` spell.
pub open spec fn hex4(buf: Seq<u8>, p: int) -> Option<int> {
    if 0 <= p && p + 4 <= buf.len() {
        match (hex_digit(buf[p]), hex_digit(buf[p + 1]), hex_digit(buf[p + 2]), hex_digit(buf[p + 3])) {
            (Some(a), Some(b), Some(c), Some(d)) => Some(a * 4096 + b * 256 + c * 16 + d),
            _ => None,
        }
    } else {
        None
    }
}

fn hex_digit_of(c: u8) -> (r: Option<u32>)
    ensures
        match hex_digit(c) {
            Some(v) => r == Some(v as u32),
            None => r is None,
        },
{
    if 0x30 <= c && c <= 0x39 {
        Some((c - 0x30) as u32)
    } else if 0x61 <= c && c <= 0x66 {
        Some((c - 0x61 + 10) as u32)
    } else if 0x41 <= c && c <= 0x46 {
        Some((c - 0x41 + 10) as u32)
    } else {
        None
    }
}

fn read_hex4(buf: &[u8], p: usize) -> (r: Option<u32>)
    ensures
        match hex4(buf@, p as int) {
            Some(v) => r == Some(v as u32) && v < 0x10000,
            None => r is None,
        },
{
    if p > buf.len() || buf.len() - p < 4 {
        return None;
    }
    match (hex_digit_of(buf[p]), hex_digit_of(buf[p + 1]), hex_digit_of(buf[p + 2]), hex_digit_of(buf[p + 3])) {
        (Some(a), Some(b), Some(c), Some(d)) => Some(a * 4096 + b * 256 + c * 16 + d),
        _ => None,
    }
}

/// The UTF-8 encoding of the code point `n`.
pub open spec fn utf8_bytes(n: int) -> Seq<u8> {
    if n < 0x80 {
        seq![n as u8]
    } else if n < 0x800 {
        seq![(0xc0 + n / 64) as u8, (0x80 + n % 64) as u8]
    } else if n < 0x10000 {
        seq![(0xe0 + n / 4096) as u8, (0x80 + (n / 64) % 64) as u8, (0x80 + n % 64) as u8]
    } else {
        seq![
            (0xf0 + n / 262144) as u8,
            (0x80 + (n / 4096) % 64) as u8,
            (0x80 + (n / 64) % 64) as u8,
            (0x80 + n % 64) as u8,
        ]
    }
}

fn push_utf8(out: &mut Vec<u8>, n: u32)
    requires
        n < 0x110000,
    ensures
        final(out)@ == old(out)@ + utf8_bytes(n as int),
{
    if n < 0x80 {
        out.push(n as u8);
    } else if n < 0x800 {
        out.push((0xc0 + n / 64) as u8);
        out.push((0x80 + n % 64) as u8);
    } else if n < 0x10000 {
        out.push((0xe0 + n / 4096) as u8);
        out.push((0x80 + (n / 64) % 64) as u8);
        out.push((0x80 + n % 64) as u8);
    } else {
        out.push((0xf0 + n / 262144) as u8);
        out.push((0x80 + (n / 4096) % 64) as u8);
        out.push((0x80 + (n / 64) % 64) as u8);
        out.push((0x80 + n % 64) as u8);
    }
    assert(final(out)@ =~= old(out)@ + utf8_bytes(n as int));
}

/// The escape whose letter is at `p`, just after a backslash: the bytes it
/// stands for and the position after it. A `\u` escape of a UTF-16
/// surrogate must be a leading one followed at once by a trailing one.
pub open spec fn escape_at(buf: Seq<u8>, p: int) -> Option<(Seq<u8>, int)> {
    if !(0 <= p < buf.len()) {
        None
    } else {
        let c = buf[p];
        if c == 0x22 {
            Some((seq![0x22u8], p + 1))
        } else if c == 0x5c {
            Some((seq![0x5cu8], p + 1))
        } else if c == 0x2f {
            Some((seq![0x2fu8], p + 1))
        } else if c == 0x62 {
            Some((seq![0x08u8], p + 1))
        } else if c == 0x66 {
            Some((seq![0x0cu8], p + 1))
        } else if c == 0x6e {
            Some((seq![0x0au8], p + 1))
        } else if c == 0x72 {
            Some((seq![0x0du8], p + 1))
        } else if c == 0x74 {
            Some((seq![0x09u8], p + 1))
        } else if c == 0x75 {
            match hex4(buf, p + 1) {
                None => None,
                Some(n) => if 0xdc00 <= n <= 0xdfff {
                    None
                } else if n < 0xd800 || n > 0xdbff {
                    Some((utf8_bytes(n), p + 5))
                } else if p + 7 <= buf.len() && buf[p + 5] == 0x5c && buf[p + 6] == 0x75 {
                    match hex4(buf, p + 7) {
                        Some(m) => if 0xdc00 <= m <= 0xdfff {
                            Some((utf8_bytes(0x10000 + (n - 0xd800) * 1024 + (m - 0xdc00)), p + 11))
                        } else {
                            None
                        },
                        None => None,
                    }
                } else {
                    None
                },
            }
        } else {
            None
        }
    }
}

/// Appends what the escape whose letter is at `p` stands for.
fn read_escape(buf: &[u8], p: usize, out: &mut Vec<u8>) -> (r: Option<usize>)
    requires
        p <= buf@.len(),
    ensures
        match escape_at(buf@, p as int) {
            Some((b, q)) => r == Some(q as usize) && final(out)@ == old(out)@ + b,
            None => r is None,
        },
        r matches Some(q) ==> p < q <= buf@.len(),
{
    let n = buf.len();
    if p >= n {
        return None;
    }
    let c = buf[p];
    let simple: u8 = if c == 0x22 {
        0x22
    } else if c == 0x5c {
        0x5c
    } else if c == 0x2f {
        0x2f
    } else if c == 0x62 {
        0x08
    } else if c == 0x66 {
        0x0c
    } else if c == 0x6e {
        0x0a
    } else if c == 0x72 {
        0x0d
    } else if c == 0x74 {
        0x09
    } else {
        0
    };
    if simple != 0 {
        let ghost before = out@;
        out.push(simple);
        assert(out@ =~= before + seq![simple]);
        return Some(p + 1);
    }
    if c != 0x75 {
        return None;
    }
    let hi = match read_hex4(buf, p + 1) {
        Some(v) => v,
        None => return None,
    };
    if 0xdc00 <= hi && hi <= 0xdfff {
        return None;
    }
    if hi < 0xd800 || hi > 0xdbff {
        push_utf8(out, hi);
        return Some(p + 5);
    }
    if n - p < 7 || buf[p + 5] != 0x5c || buf[p + 6] != 0x75 {
        return None;
    }
    match read_hex4(buf, p + 7) {
        Some(lo) => if 0xdc00 <= lo && lo <= 0xdfff {
            push_utf8(out, 0x10000 + (hi - 0xd800) * 1024 + (lo - 0xdc00));
            Some(p + 11)
        } else {
            None
        },
        None => None,
    }
}

/// The contents of the string literal from `p`, just after its opening
/// quote, with escapes decoded, and the position after its closing quote.
/// A control character may not stand in it unescaped.
pub open spec fn str_body(buf: Seq<u8>, p: int) -> Option<(Seq<u8>, int)>
    decreases buf.len() - p,
{
    if !(0 <= p < buf.len()) {
        None
    } else if buf[p] == 0x22 {
        Some((Seq::<u8>::empty(), p + 1))
    } else if buf[p] == 0x5c {
        match escape_at(buf, p + 1) {
            Some((b, q)) => if p < q <= buf.len() {
                prefixed(b, str_body(buf, q))
            } else {
                None
            },
            None => None,
        }
    } else if buf[p] < 0x20 {
        None
    } else {
        prefixed(seq![buf[p]], str_body(buf, p + 1))
    }
}

/// A read value with `pre` put in front of it.
pub open spec fn prefixed<T>(pre: Seq<T>, r: Option<(Seq<T>, int)>) -> Option<(Seq<T>, int)> {
    match r {
        Some((v, e)) => Some((pre + v, e)),
        None => None,
    }
}

proof fn lemma_prefixed_twice<T>(a: Seq<T>, b: Seq<T>, r: Option<(Seq<T>, int)>)
    ensures
        prefixed(a, prefixed(b, r)) == prefixed(a + b, r),
{
    match r {
        Some((v, e)) => {
            assert(a + (b + v) =~= (a + b) + v);
        },
        None => {},
    }
}

/// Reads the string literal whose contents start at `p`: its decoded bytes
/// and the position after its closing quote.
pub fn read_str_body(buf: &[u8], p: usize) -> (r: Option<(Vec<u8>, usize)>)
    requires
        p <= buf@.len(),
    ensures
        match str_body(buf@, p as int) {
            Some((v, e)) => r matches Some((w, f)) && w@ == v && f == e,
            None => r is None,
        },
        r matches Some((_, f)) ==> p < f <= buf@.len(),
{
    let n = buf.len();
    let mut out: Vec<u8> = Vec::new();
    let mut i = p;
    assert(str_body(buf@, p as int) == prefixed(out@, str_body(buf@, i as int))) by {
        match str_body(buf@, p as int) {
            Some((v, e)) => assert(out@ + v =~= v),
            None => {},
        }
    }
    loop
        invariant
            n == buf@.len(),
            p <= i <= n,
            str_body(buf@, p as int) == prefixed(out@, str_body(buf@, i as int)),
        decreases n - i,
    {
        if i >= n {
            return None;
        }
        let c = buf[i];
        if c == 0x22 {
            assert(out@ + Seq::<u8>::empty() =~= out@);
            return Some((out, i + 1));
        } else if c == 0x5c {
            let ghost before = out@;
            match read_escape(buf, i + 1, &mut out) {
                Some(q) => {
                    proof {
                        if let Some((b, _)) = escape_at(buf@, i + 1) {
                            lemma_prefixed_twice(before, b, str_body(buf@, q as int));
                        }
                    }
                    i = q;
                },
                None => return None,
            }
        } else if c < 0x20 {
            return None;
        } else {
            proof {
                lemma_prefixed_twice(out@, seq![c], str_body(buf@, i + 1));
            }
            out.push(c);
            i = i + 1;
        }
    }
}

/// The position after an escape whose letter is at `p`, where only its form is checked.
pub open spec fn escape_skip(buf: Seq<u8>, p: int) -> Option<int> {
    if !(0 <= p < buf.len()) {
        None
    } else {
        let c = buf[p];
        if c == 0x22 || c == 0x5c || c == 0x2f || c == 0x62 || c == 0x66 || c == 0x6e || c == 0x72
            || c == 0x74 {
            Some(p + 1)
        } else if c == 0x75 && hex4(buf, p + 1) is Some {
            Some(p + 5)
        } else {
            None
        }
    }
}

/// The position after the closing quote of a string literal whose contents
/// start at `p`, where the literal is stepped over without being kept:
/// escapes are checked for their form only and the bytes need not be UTF-8.
pub open spec fn str_skip(buf: Seq<u8>, p: int) -> Option<int>
    decreases buf.len() - p,
{
    if !(0 <= p < buf.len()) {
        None
    } else if buf[p] == 0x22 {
        Some(p + 1)
    } else if buf[p] == 0x5c {
        match escape_skip(buf, p + 1) {
            Some(q) => if p < q <= buf.len() {
                str_skip(buf, q)
            } else {
                None
            },
            None => None,
        }
    } else if buf[p] < 0x20 {
        None
    } else {
        str_skip(buf, p + 1)
    }
}

fn skip_str(buf: &[u8], p: usize) -> (r: Option<usize>)
    requires
        p <= buf@.len(),
    ensures
        match r {
            Some(f) => str_skip(buf@, p as int) == Some(f as int) && p < f <= buf@.len(),
            None => str_skip(buf@, p as int) is None,
        },
{
    let n = buf.len();
    let mut i = p;
    loop
        invariant
            n == buf@.len(),
            p <= i <= n,
            str_skip(buf@, p as int) == str_skip(buf@, i as int),
        decreases n - i,
    {
        if i >= n {
            return None;
        }
        let c = buf[i];
        if c == 0x22 {
            return Some(i + 1);
        } else if c == 0x5c {
            if i + 1 >= n {
                return None;
            }
            let d = buf[i + 1];
            if d == 0x22 || d == 0x5c || d == 0x2f || d == 0x62 || d == 0x66 || d == 0x6e || d == 0x72
                || d == 0x74 {
                i = i + 2;
            } else if d == 0x75 {
                match read_hex4(buf, i + 2) {
                    Some(_) => {
                        i = i + 6;
                    },
                    None => return None,
                }
            } else {
                return None;
            }
        } else if c < 0x20 {
            return None;
        } else {
            i = i + 1;
        }
    }
}

/// The first position at or after `p` that holds no decimal digit.
pub open spec fn digits_end(buf: Seq<u8>, p: int) -> int
    decreases buf.len() - p,
{
    if 0 <= p < buf.len() && is_digit(buf[p]) {
        digits_end(buf, p + 1)
    } else {
        p
    }
}

fn read_digits(buf: &[u8], p: usize) -> (r: usize)
    requires
        p <= buf@.len(),
    ensures
        r == digits_end(buf@, p as int),
        p <= r <= buf@.len(),
{
    let n = buf.len();
    let mut i = p;
    while i < n && 0x30 <= buf[i] && buf[i] <= 0x39
        invariant
            n == buf@.len(),
            p <= i <= n,
            digits_end(buf@, p as int) == digits_end(buf@, i as int),
        decreases n - i,
    {
        i = i + 1;
    }
    i
}

/// The end of the number whose digits start at `p`, after any minus sign:
/// one `0` or digits without a leading zero, then an optional fraction of
/// at least one digit, then an optional exponent of at least one digit.
pub open spec fn number_end(buf: Seq<u8>, p: int) -> Option<int> {
    let int_end: Option<int> = if 0 <= p < buf.len() && buf[p] == 0x30 {
        if p + 1 < buf.len() && is_digit(buf[p + 1]) {
            None
        } else {
            Some(p + 1)
        }
    } else if 0 <= p < buf.len() && 0x31 <= buf[p] <= 0x39 {
        Some(digits_end(buf, p + 1))
    } else {
        None
    };
    match int_end {
        None => None,
        Some(i) => {
            let frac_end: Option<int> = if i < buf.len() && buf[i] == 0x2e {
                if digits_end(buf, i + 1) == i + 1 {
                    None
                } else {
                    Some(digits_end(buf, i + 1))
                }
            } else {
                Some(i)
            };
            match frac_end {
                None => None,
                Some(j) => if j < buf.len() && (buf[j] == 0x65 || buf[j] == 0x45) {
                    let k = if j + 1 < buf.len() && (buf[j + 1] == 0x2b || buf[j + 1] == 0x2d) {
                        j + 2
                    } else {
                        j + 1
                    };
                    if digits_end(buf, k) == k {
                        None
                    } else {
                        Some(digits_end(buf, k))
                    }
                } else {
                    Some(j)
                },
            }
        },
    }
}

fn skip_number(buf: &[u8], p: usize) -> (r: Option<usize>)
    requires
        p <= buf@.len(),
    ensures
        match r {
            Some(f) => number_end(buf@, p as int) == Some(f as int) && p < f <= buf@.len(),
            None => number_end(buf@, p as int) is None,
        },
{
    let n = buf.len();
    if p >= n {
        return None;
    }
    let mut i: usize;
    if buf[p] == 0x30 {
        if p + 1 < n && 0x30 <= buf[p + 1] && buf[p + 1] <= 0x39 {
            return None;
        }
        i = p + 1;
    } else if 0x31 <= buf[p] && buf[p] <= 0x39 {
        i = read_digits(buf, p + 1);
    } else {
        return None;
    }
    if i < n && buf[i] == 0x2e {
        let j = read_digits(buf, i + 1);
        if j == i + 1 {
            return None;
        }
        i = j;
    }
    if i < n && (buf[i] == 0x65 || buf[i] == 0x45) {
        let k = if i + 1 < n && (buf[i + 1] == 0x2b || buf[i + 1] == 0x2d) {
            i + 2
        } else {
            i + 1
        };
        let j = read_digits(buf, k);
        if j == k {
            return None;
        }
        i = j;
    }
    Some(i)
}

pub const LIT_NULL: [u8; 4] = [0x6e, 0x75, 0x6c, 0x6c];

pub const LIT_TRUE: [u8; 4] = [0x74, 0x72, 0x75, 0x65];

pub const LIT_FALSE: [u8; 5] = [0x66, 0x61, 0x6c, 0x73, 0x65];

/// The end of the literal, number or string that starts at `p`.
pub open spec fn scalar_end(buf: Seq<u8>, p: int) -> Option<int> {
    if !(0 <= p < buf.len()) {
        None
    } else {
        let c = buf[p];
        if c == 0x6e {
            if lit_at(buf, p, LIT_NULL@) {
                Some(p + 4)
            } else {
                None
            }
        } else if c == 0x74 {
            if lit_at(buf, p, LIT_TRUE@) {
                Some(p + 4)
            } else {
                None
            }
        } else if c == 0x66 {
            if lit_at(buf, p, LIT_FALSE@) {
                Some(p + 5)
            } else {
                None
            }
        } else if c == 0x2d {
            number_end(buf, p + 1)
        } else if is_digit(c) {
            number_end(buf, p)
        } else if c == 0x22 {
            str_skip(buf, p + 1)
        } else {
            None
        }
    }
}

/// The closing bracket of an object or of an array.
pub open spec fn close_of(obj: bool) -> u8 {
    if obj {
        0x7du8
    } else {
        0x5du8
    }
}

/// Where the value of the member at `p` starts: `p` in an array; after the
/// key, the colon and whitespace in an object.
pub open spec fn member_value(buf: Seq<u8>, p: int, obj: bool) -> Option<int> {
    if !obj {
        Some(p)
    } else if 0 <= p < buf.len() && buf[p] == 0x22 {
        match str_skip(buf, p + 1) {
            Some(k) => {
                let c = skip_ws(buf, k);
                if 0 <= c < buf.len() && buf[c] == 0x3a {
                    Some(skip_ws(buf, c + 1))
                } else {
                    None
                }
            },
            None => None,
        }
    } else {
        None
    }
}

/// Steps over nested values one token at a time. `open` holds, innermost
/// last, whether each array or object entered and not yet closed is an
/// object. Where `after` holds, a value has just ended at `p`; else a value
/// is due at `p`, after whitespace. The result is the position after the
/// outermost value. Each step moves forward.
pub open spec fn skip_run(buf: Seq<u8>, p: int, open: Seq<bool>, after: bool) -> Option<int>
    decreases buf.len() - p,
{
    if !after {
        let q = skip_ws(buf, p);
        if !(0 <= p <= q < buf.len()) {
            None
        } else if buf[q] == 0x5b || buf[q] == 0x7b {
            let obj = buf[q] == 0x7b;
            let r = skip_ws(buf, q + 1);
            if !(q < r < buf.len()) {
                None
            } else if buf[r] == close_of(obj) {
                skip_run(buf, r + 1, open, true)
            } else {
                match member_value(buf, r, obj) {
                    Some(v) => if p < v <= buf.len() {
                        skip_run(buf, v, open.push(obj), false)
                    } else {
                        None
                    },
                    None => None,
                }
            }
        } else {
            match scalar_end(buf, q) {
                Some(e) => if p < e <= buf.len() {
                    skip_run(buf, e, open, true)
                } else {
                    None
                },
                None => None,
            }
        }
    } else if open.len() == 0 {
        Some(p)
    } else {
        let obj = open.last();
        let r = skip_ws(buf, p);
        if !(0 <= p <= r < buf.len()) {
            None
        } else if buf[r] == 0x2c {
            match member_value(buf, skip_ws(buf, r + 1), obj) {
                Some(v) => if p < v <= buf.len() {
                    skip_run(buf, v, open, false)
                } else {
                    None
                },
                None => None,
            }
        } else if buf[r] == close_of(obj) {
            skip_run(buf, r + 1, open.drop_last(), true)
        } else {
            None
        }
    }
}

/// The end of the JSON value that starts at `p`: a literal, a number, a
/// string, or an array or object of any depth.
pub open spec fn value_end(buf: Seq<u8>, p: int) -> Option<int> {
    skip_run(buf, p, Seq::<bool>::empty(), false)
}

fn skip_scalar(buf: &[u8], p: usize) -> (r: Option<usize>)
    requires
        p <= buf@.len(),
    ensures
        match r {
            Some(f) => scalar_end(buf@, p as int) == Some(f as int) && p < f <= buf@.len(),
            None => scalar_end(buf@, p as int) is None,
        },
{
    let n = buf.len();
    if p >= n {
        return None;
    }
    let c = buf[p];
    if c == 0x6e {
        if expect_lit(buf, p, &LIT_NULL) {
            Some(p + 4)
        } else {
            None
        }
    } else if c == 0x74 {
        if expect_lit(buf, p, &LIT_TRUE) {
            Some(p + 4)
        } else {
            None
        }
    } else if c == 0x66 {
        if expect_lit(buf, p, &LIT_FALSE) {
            Some(p + 5)
        } else {
            None
        }
    } else if c == 0x2d {
        skip_number(buf, p + 1)
    } else if 0x30 <= c && c <= 0x39 {
        skip_number(buf, p)
    } else if c == 0x22 {
        skip_str(buf, p + 1)
    } else {
        None
    }
}

fn find_member_value(buf: &[u8], p: usize, obj: bool) -> (r: Option<usize>)
    requires
        p <= buf@.len(),
    ensures
        match r {
            Some(v) => member_value(buf@, p as int, obj) == Some(v as int) && p <= v <= buf@.len(),
            None => member_value(buf@, p as int, obj) is None,
        },
{
    if !obj {
        return Some(p);
    }
    if p >= buf.len() || buf[p] != 0x22 {
        return None;
    }
    let k = match skip_str(buf, p + 1) {
        Some(k) => k,
        None => return None,
    };
    let c = ws_end(buf, k);
    if c >= buf.len() || buf[c] != 0x3a {
        return None;
    }
    Some(ws_end(buf, c + 1))
}

/// Steps over the JSON value that starts at `p`: the position after it.
/// Nesting is kept on a stack of its own, so depth costs no recursion.
pub fn skip_value(buf: &[u8], p: usize) -> (r: Option<usize>)
    requires
        p <= buf@.len(),
    ensures
        match r {
            Some(f) => value_end(buf@, p as int) == Some(f as int) && p < f <= buf@.len(),
            None => value_end(buf@, p as int) is None,
        },
{
    let n = buf.len();
    let mut open: Vec<bool> = Vec::new();
    let mut i = p;
    let mut after = false;
    loop
        invariant
            n == buf@.len(),
            p <= i <= n,
            after ==> p < i,
            value_end(buf@, p as int) == skip_run(buf@, i as int, open@, after),
        decreases n - i,
    {
        if !after {
            let q = ws_end(buf, i);
            if q >= n {
                return None;
            }
            if buf[q] == 0x5b || buf[q] == 0x7b {
                let obj = buf[q] == 0x7b;
                let close: u8 = if obj {
                    0x7d
                } else {
                    0x5d
                };
                let r = ws_end(buf, q + 1);
                if r >= n {
                    return None;
                }
                if buf[r] == close {
                    i = r + 1;
                    after = true;
                } else {
                    let v = match find_member_value(buf, r, obj) {
                        Some(v) => v,
                        None => return None,
                    };
                    open.push(obj);
                    i = v;
                }
            } else {
                let e = match skip_scalar(buf, q) {
                    Some(e) => e,
                    None => return None,
                };
                i = e;
                after = true;
            }
        } else if open.len() == 0 {
            return Some(i);
        } else {
            let obj = open[open.len() - 1];
            let close: u8 = if obj {
                0x7d
            } else {
                0x5d
            };
            let r = ws_end(buf, i);
            if r >= n {
                return None;
            }
            if buf[r] == 0x2c {
                let s = ws_end(buf, r + 1);
                let v = match find_member_value(buf, s, obj) {
                    Some(v) => v,
                    None => return None,
                };
                i = v;
                after = false;
            } else if buf[r] == close {
                let ghost before = open@;
                open.pop();
                assert(open@ =~= before.drop_last());
                i = r + 1;
            } else {
                return None;
            }
        }
    }
}

} // verus!
