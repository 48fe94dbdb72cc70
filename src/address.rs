//! IPv4 addresses and networks, with their textual forms.
use vstd::prelude::*;

verus! {

/// An IPv4 address, one field per octet, most significant first.
#[derive(Clone, Copy, Debug, PartialEq, Eq, Structural)]
pub struct Ipv4Address {
    pub a: u8,
    pub b: u8,
    pub c: u8,
    pub d: u8,
}

/// An IPv4 address together with a CIDR prefix length.
#[derive(Clone, Copy, Debug, PartialEq, Eq, Structural)]
pub struct IPv4Network {
    pub ip: Ipv4Address,
    pub prefix: u8,
}

impl Ipv4Address {
    pub fn new(a: u8, b: u8, c: u8, d: u8) -> (r: Ipv4Address)
        ensures
            r == (Ipv4Address { a, b, c, d }),
    {
        Ipv4Address { a, b, c, d }
    }
}

impl IPv4Network {
    /// A network whose prefix can stand in a configuration file: 1 to 32.
    pub open spec fn wf(self) -> bool {
        1 <= self.prefix <= 32
    }
}

pub open spec fn digit_char(d: int) -> char {
    if d == 0 { '0' } else if d == 1 { '1' } else if d == 2 { '2' } else if d == 3 { '3' }
    else if d == 4 { '4' } else if d == 5 { '5' } else if d == 6 { '6' } else if d == 7 { '7' }
    else if d == 8 { '8' } else { '9' }
}

pub open spec fn is_digit(c: char) -> bool {
    '0' <= c && c <= '9'
}

pub open spec fn digit_value(c: char) -> int {
    c as int - '0' as int
}

/// The decimal text of `n`, without leading zeros.
pub open spec fn octet_text(n: int) -> Seq<char> {
    if n < 10 {
        seq![digit_char(n)]
    } else if n < 100 {
        seq![digit_char(n / 10), digit_char(n % 10)]
    } else {
        seq![digit_char(n / 100), digit_char((n / 10) % 10), digit_char(n % 10)]
    }
}

/// The dotted-quad text of an address.
pub open spec fn ipv4_text(a: Ipv4Address) -> Seq<char> {
    octet_text(a.a as int) + seq!['.'] + octet_text(a.b as int) + seq!['.']
        + octet_text(a.c as int) + seq!['.'] + octet_text(a.d as int)
}

/// The CIDR text of a network: its address, a slash and its prefix length.
pub open spec fn cidr_text(n: IPv4Network) -> Seq<char> {
    ipv4_text(n.ip) + seq!['/'] + octet_text(n.prefix as int)
}

pub open spec fn is_ipv4_text(s: Seq<char>) -> bool {
    exists|a: Ipv4Address| ipv4_text(a) == s
}

pub open spec fn is_cidr_text(s: Seq<char>) -> bool {
    exists|n: IPv4Network| n.wf() && cidr_text(n) == s
}

proof fn lemma_digit_char(d: int)
    requires
        0 <= d <= 9,
    ensures
        is_digit(digit_char(d)),
        digit_value(digit_char(d)) == d,
{
}

proof fn lemma_digit_value(c: char)
    requires
        is_digit(c),
    ensures
        digit_char(digit_value(c)) == c,
        0 <= digit_value(c) <= 9,
{
}

/// The shape of an octet's text: one to three digits, no leading zero, worth `n`.
proof fn lemma_octet_text(n: int)
    requires
        0 <= n <= 255,
    ensures
        ({
            let t = octet_text(n);
            &&& 1 <= t.len() <= 3
            &&& forall|i: int| 0 <= i < t.len() ==> is_digit(#[trigger] t[i])
            &&& t.len() > 1 ==> t[0] != '0'
            &&& t.len() == 1 ==> n == digit_value(t[0])
            &&& t.len() == 2 ==> n == 10 * digit_value(t[0]) + digit_value(t[1])
            &&& t.len() == 3 ==> n == 100 * digit_value(t[0]) + 10 * digit_value(t[1])
                + digit_value(t[2])
        }),
{
    if n < 10 {
        lemma_digit_char(n);
    } else if n < 100 {
        assert(1 <= n / 10 <= 9 && 0 <= n % 10 <= 9 && n == 10 * (n / 10) + n % 10)
            by (nonlinear_arith)
            requires 10 <= n < 100;
        lemma_digit_char(n / 10);
        lemma_digit_char(n % 10);
    } else {
        assert(1 <= n / 100 <= 2 && 0 <= (n / 10) % 10 <= 9 && 0 <= n % 10 <= 9 && n == 100 * (
        n / 100) + 10 * ((n / 10) % 10) + n % 10) by (nonlinear_arith)
            requires 100 <= n <= 255;
        lemma_digit_char(n / 100);
        lemma_digit_char((n / 10) % 10);
        lemma_digit_char(n % 10);
    }
}

pub proof fn lemma_octet_text_injective(m: int, n: int)
    requires
        0 <= m <= 255,
        0 <= n <= 255,
        octet_text(m) == octet_text(n),
    ensures
        m == n,
{
    lemma_octet_text(m);
    lemma_octet_text(n);
}

/// Where the dots of an address's text stand, and what lies between them.
proof fn lemma_ipv4_text(a: Ipv4Address)
    ensures
        ({
            let t = ipv4_text(a);
            let t0 = octet_text(a.a as int);
            let t1 = octet_text(a.b as int);
            let t2 = octet_text(a.c as int);
            let t3 = octet_text(a.d as int);
            let e0 = t0.len() as int;
            let e1 = e0 + 1 + t1.len();
            let e2 = e1 + 1 + t2.len();
            &&& t.len() == e2 + 1 + t3.len()
            &&& t[e0] == '.' && t[e1] == '.' && t[e2] == '.'
            &&& t.subrange(0, e0) == t0
            &&& t.subrange(e0 + 1, e1) == t1
            &&& t.subrange(e1 + 1, e2) == t2
            &&& t.subrange(e2 + 1, t.len() as int) == t3
            &&& forall|i: int|
                0 <= i < t.len() && i != e0 && i != e1 && i != e2 ==> is_digit(#[trigger] t[i])
        }),
{
    lemma_octet_text(a.a as int);
    lemma_octet_text(a.b as int);
    lemma_octet_text(a.c as int);
    lemma_octet_text(a.d as int);
    let t = ipv4_text(a);
    let t0 = octet_text(a.a as int);
    let t1 = octet_text(a.b as int);
    let t2 = octet_text(a.c as int);
    let t3 = octet_text(a.d as int);
    let e0 = t0.len() as int;
    let e1 = e0 + 1 + t1.len();
    let e2 = e1 + 1 + t2.len();
    assert(t.subrange(0, e0) =~= t0);
    assert(t.subrange(e0 + 1, e1) =~= t1);
    assert(t.subrange(e1 + 1, e2) =~= t2);
    assert(t.subrange(e2 + 1, t.len() as int) =~= t3);
    assert forall|i: int|
        0 <= i < t.len() && i != e0 && i != e1 && i != e2 implies is_digit(#[trigger] t[i]) by {
        if i < e0 {
            assert(t[i] == t0[i]);
        } else if i < e1 {
            assert(t[i] == t1[i - e0 - 1]);
        } else if i < e2 {
            assert(t[i] == t2[i - e1 - 1]);
        } else {
            assert(t[i] == t3[i - e2 - 1]);
        }
    }
}

/// Index of the first `c` in `s[lo..hi]`.
pub fn find_char(s: &str, c: char, lo: usize, hi: usize) -> (r: Option<usize>)
    requires
        lo <= hi <= s@.len(),
    ensures
        match r {
            Some(i) => lo <= i < hi && s@[i as int] == c && forall|k: int|
                lo <= k < i ==> s@[k] != c,
            None => forall|k: int| lo <= k < hi ==> s@[k] != c,
        },
{
    let mut i = lo;
    while i < hi
        invariant
            lo <= i <= hi <= s@.len(),
            forall|k: int| lo <= k < i ==> s@[k] != c,
        decreases hi - i,
    {
        if s.get_char(i) == c {
            return Some(i);
        }
        i = i + 1;
    }
    None
}

/// Reads the octet written in `s[lo..hi]`.
pub fn parse_octet(s: &str, lo: usize, hi: usize) -> (r: Option<u8>)
    requires
        lo <= hi <= s@.len(),
    ensures
        match r {
            Some(n) => s@.subrange(lo as int, hi as int) == octet_text(n as int),
            None => forall|n: u8| s@.subrange(lo as int, hi as int) != octet_text(n as int),
        },
{
    let ghost t = s@.subrange(lo as int, hi as int);
    if hi - lo == 0 || hi - lo > 3 {
        proof {
            assert forall|n: u8| t != octet_text(n as int) by {
                lemma_octet_text(n as int);
            }
        }
        return None;
    }
    let mut v: u32 = 0;
    let mut i = lo;
    while i < hi
        invariant
            lo <= i <= hi <= s@.len(),
            hi - lo <= 3,
            t == s@.subrange(lo as int, hi as int),
            forall|k: int| lo <= k < i ==> is_digit(#[trigger] s@[k]),
            v < 1000,
            i == lo ==> v == 0,
            i == lo + 1 ==> v == digit_value(s@[lo as int]),
            i == lo + 2 ==> v == 10 * digit_value(s@[lo as int]) + digit_value(s@[lo + 1]),
            i == lo + 3 ==> v == 100 * digit_value(s@[lo as int]) + 10 * digit_value(
                s@[lo + 1],
            ) + digit_value(s@[lo + 2]),
        decreases hi - i,
    {
        let ch = s.get_char(i);
        if !('0' <= ch && ch <= '9') {
            proof {
                assert(t[i - lo] == ch);
                assert forall|n: u8| t != octet_text(n as int) by {
                    lemma_octet_text(n as int);
                }
            }
            return None;
        }
        v = v * 10 + (ch as u32 - '0' as u32);
        i = i + 1;
    }
    proof {
        assert forall|k: int| 0 <= k < t.len() implies is_digit(#[trigger] t[k]) by {
            assert(t[k] == s@[lo + k]);
        }
    }
    if (hi - lo > 1 && s.get_char(lo) == '0') || v > 255 {
        proof {
            assert forall|n: u8| t != octet_text(n as int) by {
                lemma_octet_text(n as int);
                if t == octet_text(n as int) {
                    assert(t[0] == s@[lo as int]);
                    if t.len() >= 2 {
                        assert(t[1] == s@[lo + 1]);
                    }
                    if t.len() == 3 {
                        assert(t[2] == s@[lo + 2]);
                    }
                }
            }
        }
        return None;
    }
    let n = v as u8;
    proof {
        let d0 = digit_value(t[0]);
        lemma_digit_value(t[0]);
        assert(t[0] == s@[lo as int]);
        if t.len() == 1 {
            assert(t =~= octet_text(n as int));
        } else if t.len() == 2 {
            assert(t[1] == s@[lo + 1]);
            let d1 = digit_value(t[1]);
            lemma_digit_value(t[1]);
            assert(d0 >= 1);
            assert((10 * d0 + d1) / 10 == d0 && (10 * d0 + d1) % 10 == d1) by (nonlinear_arith)
                requires 1 <= d0 <= 9, 0 <= d1 <= 9;
            assert(t =~= octet_text(n as int));
        } else {
            assert(t[1] == s@[lo + 1]);
            assert(t[2] == s@[lo + 2]);
            let d1 = digit_value(t[1]);
            let d2 = digit_value(t[2]);
            lemma_digit_value(t[1]);
            lemma_digit_value(t[2]);
            assert(d0 >= 1);
            let m = 100 * d0 + 10 * d1 + d2;
            assert(m >= 100 && m / 100 == d0 && (m / 10) % 10 == d1 && m % 10 == d2)
                by (nonlinear_arith)
                requires 1 <= d0 <= 9, 0 <= d1 <= 9, 0 <= d2 <= 9, m == 100 * d0 + 10 * d1 + d2;
            assert(t =~= octet_text(n as int));
        }
    }
    Some(n)
}


/// Reads the dotted-quad address written in `s[lo..hi]`.
pub fn parse_ipv4(s: &str, lo: usize, hi: usize) -> (r: Option<Ipv4Address>)
    requires
        lo <= hi <= s@.len(),
    ensures
        match r {
            Some(a) => s@.subrange(lo as int, hi as int) == ipv4_text(a),
            None => !is_ipv4_text(s@.subrange(lo as int, hi as int)),
        },
{
    let ghost t = s@.subrange(lo as int, hi as int);
    let d0 = find_char(s, '.', lo, hi);
    let d0 = match d0 {
        Some(i) => i,
        None => {
            proof {
                assert forall|a: Ipv4Address| ipv4_text(a) != t by {
                    lemma_ipv4_text(a);
                    if ipv4_text(a) == t {
                        let e0 = octet_text(a.a as int).len() as int;
                        assert(t[e0] == s@[lo + e0]);
                    }
                }
            }
            return None;
        },
    };
    let d1 = find_char(s, '.', d0 + 1, hi);
    let d1 = match d1 {
        Some(i) => i,
        None => {
            proof { lemma_no_ipv4(s@, lo as int, hi as int, d0 as int, hi as int, hi as int); }
            return None;
        },
    };
    let d2 = find_char(s, '.', d1 + 1, hi);
    let d2 = match d2 {
        Some(i) => i,
        None => {
            proof { lemma_no_ipv4(s@, lo as int, hi as int, d0 as int, d1 as int, hi as int); }
            return None;
        },
    };
    let o0 = parse_octet(s, lo, d0);
    let o1 = parse_octet(s, d0 + 1, d1);
    let o2 = parse_octet(s, d1 + 1, d2);
    let o3 = parse_octet(s, d2 + 1, hi);
    match (o0, o1, o2, o3) {
        (Some(a), Some(b), Some(c), Some(d)) => {
            let r = Ipv4Address { a, b, c, d };
            proof {
                lemma_ipv4_segments(s@, lo as int, hi as int, d0 as int, d1 as int, d2 as int, r);
            }
            Some(r)
        },
        _ => {
            proof {
                assert forall|a: Ipv4Address| ipv4_text(a) != t by {
                    lemma_ipv4_segments(s@, lo as int, hi as int, d0 as int, d1 as int, d2 as int, a);
                }
            }
            None
        },
    }
}

/// With its first three dots at `d0`, `d1` and `d2`, `s[lo..hi]` is the text of `a`
/// exactly when the four pieces between them are the texts of `a`'s octets.
proof fn lemma_ipv4_segments(s: Seq<char>, lo: int, hi: int, d0: int, d1: int, d2: int, a: Ipv4Address)
    requires
        0 <= lo <= d0 < d1 < d2 < hi <= s.len(),
        s[d0] == '.' && s[d1] == '.' && s[d2] == '.',
        forall|k: int| lo <= k < d0 ==> s[k] != '.',
        forall|k: int| d0 + 1 <= k < d1 ==> s[k] != '.',
        forall|k: int| d1 + 1 <= k < d2 ==> s[k] != '.',
    ensures
        (s.subrange(lo, hi) == ipv4_text(a)) <==> (
            s.subrange(lo, d0) == octet_text(a.a as int)
            && s.subrange(d0 + 1, d1) == octet_text(a.b as int)
            && s.subrange(d1 + 1, d2) == octet_text(a.c as int)
            && s.subrange(d2 + 1, hi) == octet_text(a.d as int)),
{
    let t = s.subrange(lo, hi);
    if t == ipv4_text(a) {
        lemma_dots_of_ipv4(s, lo, hi, a, d0, d1, d2);
        lemma_ipv4_text(a);
        assert(s.subrange(lo, d0) =~= t.subrange(0, d0 - lo));
        assert(s.subrange(d0 + 1, d1) =~= t.subrange(d0 + 1 - lo, d1 - lo));
        assert(s.subrange(d1 + 1, d2) =~= t.subrange(d1 + 1 - lo, d2 - lo));
        assert(s.subrange(d2 + 1, hi) =~= t.subrange(d2 + 1 - lo, hi - lo));
    }
    if s.subrange(lo, d0) == octet_text(a.a as int)
        && s.subrange(d0 + 1, d1) == octet_text(a.b as int)
        && s.subrange(d1 + 1, d2) == octet_text(a.c as int)
        && s.subrange(d2 + 1, hi) == octet_text(a.d as int) {
        assert(t =~= s.subrange(lo, d0) + seq!['.'] + s.subrange(d0 + 1, d1) + seq!['.']
            + s.subrange(d1 + 1, d2) + seq!['.'] + s.subrange(d2 + 1, hi));
    }
}

/// When `s[lo..hi]` is the text of `a`, its first three dots are the separators of `a`'s
/// octets.
proof fn lemma_dots_of_ipv4(s: Seq<char>, lo: int, hi: int, a: Ipv4Address, d0: int, d1: int, d2: int)
    requires
        0 <= lo <= hi <= s.len(),
        s.subrange(lo, hi) == ipv4_text(a),
        lo <= d0 < d1 < d2 < hi,
        s[d0] == '.' && s[d1] == '.' && s[d2] == '.',
        forall|k: int| lo <= k < d0 ==> s[k] != '.',
        forall|k: int| d0 + 1 <= k < d1 ==> s[k] != '.',
        forall|k: int| d1 + 1 <= k < d2 ==> s[k] != '.',
    ensures
        ({
            let e0 = octet_text(a.a as int).len() as int;
            let e1 = e0 + 1 + octet_text(a.b as int).len();
            let e2 = e1 + 1 + octet_text(a.c as int).len();
            d0 == lo + e0 && d1 == lo + e1 && d2 == lo + e2
        }),
{
    lemma_ipv4_text(a);
    let t = ipv4_text(a);
    let e0 = octet_text(a.a as int).len() as int;
    let e1 = e0 + 1 + octet_text(a.b as int).len();
    let e2 = e1 + 1 + octet_text(a.c as int).len();
    assert(t[d0 - lo] == s[d0]);
    assert(t[e0] == s[lo + e0]);
    assert(t[d1 - lo] == s[d1]);
    assert(t[e1] == s[lo + e1]);
    assert(t[d2 - lo] == s[d2]);
    assert(t[e2] == s[lo + e2]);
    if d0 - lo != e0 && d0 - lo != e1 && d0 - lo != e2 {
        assert(is_digit(t[d0 - lo]));
    }
    assert(d0 == lo + e0);
    if d1 - lo != e0 && d1 - lo != e1 && d1 - lo != e2 {
        assert(is_digit(t[d1 - lo]));
    }
    assert(d1 == lo + e1);
    if d2 - lo != e0 && d2 - lo != e1 && d2 - lo != e2 {
        assert(is_digit(t[d2 - lo]));
    }
}

/// `s[lo..hi]` holds too few dots to be an address: none in `(d0, d1)` or `(d1, d2)`
/// beyond those already found, and none after.
proof fn lemma_no_ipv4(s: Seq<char>, lo: int, hi: int, d0: int, d1: int, end: int)
    requires
        0 <= lo <= d0 < hi <= s.len(),
        d1 <= hi,
        end == hi,
        s[d0] == '.',
        forall|k: int| lo <= k < d0 ==> s[k] != '.',
        d1 == hi ==> forall|k: int| d0 + 1 <= k < hi ==> s[k] != '.',
        d1 < hi ==> d0 < d1 && s[d1] == '.' && (forall|k: int| d0 + 1 <= k < d1 ==> s[k] != '.')
            && (forall|k: int| d1 + 1 <= k < hi ==> s[k] != '.'),
    ensures
        !is_ipv4_text(s.subrange(lo, hi)),
{
    let t = s.subrange(lo, hi);
    assert forall|a: Ipv4Address| ipv4_text(a) != t by {
        lemma_ipv4_text(a);
        if ipv4_text(a) == t {
            let e0 = octet_text(a.a as int).len() as int;
            let e1 = e0 + 1 + octet_text(a.b as int).len();
            let e2 = e1 + 1 + octet_text(a.c as int).len();
            assert(t[e0] == s[lo + e0]);
            assert(t[e1] == s[lo + e1]);
            assert(t[e2] == s[lo + e2]);
            assert(s[lo + e0] == '.' && s[lo + e1] == '.' && s[lo + e2] == '.');
            assert(t[d0 - lo] == s[d0]);
            if d0 - lo != e0 && d0 - lo != e1 && d0 - lo != e2 {
                assert(is_digit(t[d0 - lo]));
            }
            assert(d0 == lo + e0);
            if d1 < hi {
                assert(t[d1 - lo] == s[d1]);
                if d1 - lo != e0 && d1 - lo != e1 && d1 - lo != e2 {
                    assert(is_digit(t[d1 - lo]));
                }
                assert(d1 == lo + e1);
                assert(d1 + 1 <= lo + e2 < hi);
            } else {
                assert(d0 + 1 <= lo + e1 < hi);
            }
        }
    }
}

/// Where the slash of a network's text stands, and what lies on either side.
proof fn lemma_cidr_text(n: IPv4Network)
    ensures
        ({
            let t = cidr_text(n);
            let e = ipv4_text(n.ip).len() as int;
            &&& t.len() == e + 1 + octet_text(n.prefix as int).len()
            &&& t[e] == '/'
            &&& t.subrange(0, e) == ipv4_text(n.ip)
            &&& t.subrange(e + 1, t.len() as int) == octet_text(n.prefix as int)
            &&& forall|i: int| 0 <= i < e ==> #[trigger] t[i] != '/'
        }),
{
    let t = cidr_text(n);
    let e = ipv4_text(n.ip).len() as int;
    lemma_octet_text(n.prefix as int);
    assert(t.subrange(0, e) =~= ipv4_text(n.ip));
    assert(t.subrange(e + 1, t.len() as int) =~= octet_text(n.prefix as int));
    assert forall|i: int| 0 <= i < e implies #[trigger] t[i] != '/' by {
        assert(t[i] == ipv4_text(n.ip)[i]);
        lemma_ipv4_no_slash(n.ip, i);
    }
}

proof fn lemma_ipv4_no_slash(a: Ipv4Address, i: int)
    requires
        0 <= i < ipv4_text(a).len(),
    ensures
        ipv4_text(a)[i] != '/',
{
    lemma_ipv4_text(a);
}

/// Reads the CIDR network written in `s[lo..hi]`: an address, a slash and a prefix
/// length from 1 to 32.
pub fn parse_cidr(s: &str, lo: usize, hi: usize) -> (r: Option<IPv4Network>)
    requires
        lo <= hi <= s@.len(),
    ensures
        match r {
            Some(n) => n.wf() && s@.subrange(lo as int, hi as int) == cidr_text(n),
            None => !is_cidr_text(s@.subrange(lo as int, hi as int)),
        },
{
    let ghost t = s@.subrange(lo as int, hi as int);
    let slash = find_char(s, '/', lo, hi);
    let slash = match slash {
        Some(i) => i,
        None => {
            proof {
                assert forall|n: IPv4Network| n.wf() implies cidr_text(n) != t by {
                    let e = ipv4_text(n.ip).len() as int;
                    lemma_cidr_text(n);
                    if cidr_text(n) == t {
                        assert(t[e] == s@[lo + e]);
                    }
                }
            }
            return None;
        },
    };
    let ip = parse_ipv4(s, lo, slash);
    let prefix = parse_octet(s, slash + 1, hi);
    match (ip, prefix) {
        (Some(ip), Some(p)) if 1 <= p && p <= 32 => {
            let r = IPv4Network { ip, prefix: p };
            proof {
                assert(t =~= s@.subrange(lo as int, slash as int) + seq!['/'] + s@.subrange(
                    slash + 1,
                    hi as int,
                ));
            }
            Some(r)
        },
        _ => {
            proof {
                assert forall|n: IPv4Network| n.wf() implies cidr_text(n) != t by {
                    let e = ipv4_text(n.ip).len() as int;
                    lemma_cidr_text(n);
                    if cidr_text(n) == t {
                        assert(t[e] == s@[lo + e]);
                        assert(t[slash - lo] == s@[slash as int]);
                        assert(slash - lo == e);
                        assert(s@.subrange(lo as int, slash as int) =~= t.subrange(0, e));
                        assert(s@.subrange(slash + 1, hi as int) =~= t.subrange(e + 1, t.len() as int));
                        if let (Some(ip), Some(p)) = (ip, prefix) {
                            lemma_octet_text_injective(p as int, n.prefix as int);
                        }
                    }
                }
            }
            None
        },
    }
}


/// Distinct addresses have distinct texts.
pub proof fn lemma_ipv4_text_injective(a: Ipv4Address, b: Ipv4Address)
    requires
        ipv4_text(a) == ipv4_text(b),
    ensures
        a == b,
{
    lemma_ipv4_text(a);
    lemma_ipv4_text(b);
    let t = ipv4_text(b);
    let e0 = octet_text(b.a as int).len() as int;
    let e1 = e0 + 1 + octet_text(b.b as int).len();
    let e2 = e1 + 1 + octet_text(b.c as int).len();
    assert forall|k: int| 0 <= k < e0 implies t[k] != '.' by {
        assert(is_digit(t[k]));
    }
    assert forall|k: int| e0 + 1 <= k < e1 implies t[k] != '.' by {
        assert(is_digit(t[k]));
    }
    assert forall|k: int| e1 + 1 <= k < e2 implies t[k] != '.' by {
        assert(is_digit(t[k]));
    }
    assert(t.subrange(0, t.len() as int) =~= t);
    lemma_dots_of_ipv4(t, 0, t.len() as int, a, e0, e1, e2);
    lemma_octet_text_injective(a.a as int, b.a as int);
    lemma_octet_text_injective(a.b as int, b.b as int);
    lemma_octet_text_injective(a.c as int, b.c as int);
    lemma_octet_text_injective(a.d as int, b.d as int);
}

/// Distinct networks have distinct texts.
pub proof fn lemma_cidr_text_injective(m: IPv4Network, n: IPv4Network)
    requires
        cidr_text(m) == cidr_text(n),
    ensures
        m == n,
{
    lemma_cidr_text(m);
    lemma_cidr_text(n);
    let t = cidr_text(m);
    let em = ipv4_text(m.ip).len() as int;
    let en = ipv4_text(n.ip).len() as int;
    if em < en {
        assert(t[em] == '/');
    } else if en < em {
        assert(t[en] == '/');
    }
    assert(em == en);
    lemma_ipv4_text_injective(m.ip, n.ip);
    lemma_octet_text_injective(m.prefix as int, n.prefix as int);
}

} // verus!
