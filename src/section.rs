//! Locating the `[Network]` section of a configuration text and the keyed values in it.
use vstd::prelude::*;
use crate::address::{
    IPv4Network, Ipv4Address, ipv4_text, is_digit, is_ipv4_text, lemma_octet_text_injective,
    octet_text, parse_ipv4, parse_octet,
};

verus! {

/// `p` stands in `s` at position `i`.
pub open spec fn occurs_at(s: Seq<char>, i: int, p: Seq<char>) -> bool {
    0 <= i && i + p.len() <= s.len() && s.subrange(i, i + p.len()) == p
}

/// The first position at or after `from` where `p` stands in `s`.
pub open spec fn first_index(s: Seq<char>, p: Seq<char>, from: int) -> Option<int>
    decreases s.len() + 1 - from,
{
    if from < 0 || from + p.len() > s.len() {
        None
    } else if occurs_at(s, from, p) {
        Some(from)
    } else {
        first_index(s, p, from + 1)
    }
}

/// A blank that may stand before a section header on its line.
pub open spec fn is_blank(c: char) -> bool {
    c == ' ' || c == '\t' || c == '\r'
}

/// Only blanks stand between the start of the line that holds `j` and `j`.
pub open spec fn blanks_before(s: Seq<char>, j: int) -> bool
    decreases j,
{
    if j <= 0 || j > s.len() {
        true
    } else if s[j - 1] == '\n' {
        true
    } else {
        is_blank(s[j - 1]) && blanks_before(s, j - 1)
    }
}

/// A section header opens at `j`: a `[` with only blanks before it on its line.
pub open spec fn opens_header(s: Seq<char>, j: int) -> bool {
    0 <= j < s.len() && s[j] == '[' && blanks_before(s, j)
}

/// The start of the first section header at or after `j`, or the end of the text.
pub open spec fn section_end(s: Seq<char>, j: int) -> int
    decreases s.len() - j,
{
    if j < 0 || j >= s.len() || opens_header(s, j) {
        j
    } else {
        section_end(s, j + 1)
    }
}

pub open spec fn network_header() -> Seq<char> {
    seq!['[', 'N', 'e', 't', 'w', 'o', 'r', 'k', ']']
}

/// The settings section: from the first `[Network]` header up to the next section header,
/// or the end of the text.
pub open spec fn settings_section(s: Seq<char>) -> Option<Seq<char>> {
    match first_index(s, network_header(), 0) {
        Some(i) => Some(s.subrange(i, section_end(s, i + network_header().len()))),
        None => None,
    }
}

/// The settings section, or the empty text where there is none.
pub open spec fn section_or_empty(s: Seq<char>) -> Seq<char> {
    match settings_section(s) {
        Some(t) => t,
        None => Seq::empty(),
    }
}

/// `key` (which ends in `=`) stands at `i`, wherever that is in its line.
pub open spec fn key_at(s: Seq<char>, i: int, key: Seq<char>) -> bool {
    occurs_at(s, i, key)
}

/// A character of a word, as a word boundary sees it.
pub open spec fn is_word_char(c: char) -> bool {
    is_digit(c) || ('a' <= c && c <= 'z') || ('A' <= c && c <= 'Z') || c == '_'
}

/// A character of an address run: a digit or a dot.
pub open spec fn is_run_char(c: char) -> bool {
    is_digit(c) || c == '.'
}

/// The first position in `j..hi` that holds `c`, or `hi`.
pub open spec fn scan_to(s: Seq<char>, c: char, j: int, hi: int) -> int
    decreases hi - j,
{
    if j < 0 || j >= hi || j >= s.len() || s[j] == c {
        j
    } else {
        scan_to(s, c, j + 1, hi)
    }
}

/// The end of the run of word characters that starts at `j`, within `hi`.
pub open spec fn word_end(s: Seq<char>, j: int, hi: int) -> int
    decreases hi - j,
{
    if j < 0 || j >= hi || j >= s.len() || !is_word_char(s[j]) {
        j
    } else {
        word_end(s, j + 1, hi)
    }
}

/// The end of the run of digits and dots that starts at `j`, within `hi`.
pub open spec fn run_end(s: Seq<char>, j: int, hi: int) -> int
    decreases hi - j,
{
    if j < 0 || j >= hi || j >= s.len() || !is_run_char(s[j]) {
        j
    } else {
        run_end(s, j + 1, hi)
    }
}

/// The text of the value `s[lo..hi]` before its first slash.
pub open spec fn address_part(s: Seq<char>, lo: int, hi: int) -> Seq<char> {
    s.subrange(lo, scan_to(s, '/', lo, hi))
}

/// The word that follows the first slash of the value `s[lo..hi]`.
pub open spec fn prefix_part(s: Seq<char>, lo: int, hi: int) -> Seq<char> {
    let k = scan_to(s, '/', lo, hi);
    s.subrange(k + 1, word_end(s, k + 1, hi))
}

/// The value `s[lo..hi]` reads `address/prefix`: a non-empty address part that ends in a
/// word character, a slash, and a prefix length from 1 to 32 that ends at a word boundary.
pub open spec fn cidr_match(s: Seq<char>, lo: int, hi: int) -> bool {
    let k = scan_to(s, '/', lo, hi);
    &&& lo < k < hi
    &&& is_word_char(s[k - 1])
    &&& exists|n: int| 1 <= n <= 32 && prefix_part(s, lo, hi) == octet_text(n)
}

/// The run of digits and dots that opens the value `s[lo..hi]`.
pub open spec fn run_part(s: Seq<char>, lo: int, hi: int) -> Seq<char> {
    s.subrange(lo, run_end(s, lo, hi))
}

/// The value `s[lo..hi]` opens with a digit or a dot.
pub open spec fn run_match(s: Seq<char>, lo: int, hi: int) -> bool {
    lo < hi && is_run_char(s[lo])
}

/// Where the value of the `key` that stands at `i` begins.
pub open spec fn value_start(i: int, key: Seq<char>) -> int {
    i + key.len()
}

/// The first position at or after `from` where `key` stands and the text after it reads
/// `address/prefix`.
pub open spec fn first_cidr_key(s: Seq<char>, key: Seq<char>, from: int) -> Option<int>
    decreases s.len() - from,
{
    if from < 0 || from >= s.len() {
        None
    } else if key_at(s, from, key) && cidr_match(s, value_start(from, key), s.len() as int) {
        Some(from)
    } else {
        first_cidr_key(s, key, from + 1)
    }
}

/// The first position at or after `from` where `key` stands and is followed by a digit or
/// a dot.
pub open spec fn first_run_key(s: Seq<char>, key: Seq<char>, from: int) -> Option<int>
    decreases s.len() - from,
{
    if from < 0 || from >= s.len() {
        None
    } else if key_at(s, from, key) && run_match(s, value_start(from, key), s.len() as int) {
        Some(from)
    } else {
        first_run_key(s, key, from + 1)
    }
}

/// The address runs, in order, that follow each `key` at or after `from`, leaving out the
/// runs that are no dotted-quad address.
pub open spec fn run_addresses(s: Seq<char>, key: Seq<char>, from: int) -> Seq<Seq<char>>
    decreases s.len() - from,
{
    if from < 0 || from >= s.len() {
        Seq::empty()
    } else if key_at(s, from, key) && is_ipv4_text(
        run_part(s, value_start(from, key), s.len() as int),
    ) {
        seq![run_part(s, value_start(from, key), s.len() as int)] + run_addresses(
            s,
            key,
            from + 1,
        )
    } else {
        run_addresses(s, key, from + 1)
    }
}

/// `p` stands in `s` at `i`.
fn matches_at(s: &str, i: usize, p: &str) -> (r: bool)
    requires
        i <= s@.len(),
    ensures
        r == occurs_at(s@, i as int, p@),
{
    let n = s.unicode_len();
    let m = p.unicode_len();
    if m > n - i {
        return false;
    }
    let mut k: usize = 0;
    while k < m
        invariant
            i + m <= n == s@.len(),
            m == p@.len(),
            k <= m,
            forall|j: int| 0 <= j < k ==> s@[i + j] == p@[j],
        decreases m - k,
    {
        if s.get_char(i + k) != p.get_char(k) {
            proof {
                assert(s@.subrange(i as int, i + m)[k as int] == s@[i + k]);
            }
            return false;
        }
        k = k + 1;
    }
    assert(s@.subrange(i as int, i + m) =~= p@);
    true
}

/// The first position at or after `from` where `p` stands in `s`.
pub fn find_pattern(s: &str, p: &str, from: usize) -> (r: Option<usize>)
    requires
        from <= s@.len(),
    ensures
        match r {
            Some(i) => first_index(s@, p@, from as int) == Some(i as int),
            None => first_index(s@, p@, from as int) is None,
        },
        r matches Some(i) ==> i + p@.len() <= s@.len(),
{
    let n = s.unicode_len();
    let m = p.unicode_len();
    if m == 0 {
        assert(s@.subrange(from as int, from as int) =~= p@);
        return Some(from);
    }
    if m > n || from > n - m {
        return None;
    }
    let mut i = from;
    while i <= n - m
        invariant
            from <= i <= n - m + 1,
            1 <= m <= n,
            n == s@.len(),
            m == p@.len(),
            first_index(s@, p@, from as int) == first_index(s@, p@, i as int),
        decreases n - m + 1 - i,
    {
        if matches_at(s, i, p) {
            return Some(i);
        }
        i = i + 1;
    }
    None
}

/// Whether only blanks stand between the start of `j`'s line and `j`.
fn blanks_before_exec(s: &str, j: usize) -> (r: bool)
    requires
        j <= s@.len(),
    ensures
        r == blanks_before(s@, j as int),
{
    let mut k = j;
    while k > 0
        invariant
            k <= j <= s@.len(),
            blanks_before(s@, j as int) == blanks_before(s@, k as int),
        decreases k,
    {
        let c = s.get_char(k - 1);
        if c == '\n' {
            return true;
        }
        if !(c == ' ' || c == '\t' || c == '\r') {
            return false;
        }
        k = k - 1;
    }
    true
}

/// The start of the first section header at or after `j`, or the end of `s`.
fn find_section_end(s: &str, j: usize) -> (r: usize)
    requires
        j <= s@.len(),
    ensures
        r == section_end(s@, j as int),
        j <= r <= s@.len(),
{
    let n = s.unicode_len();
    let mut i = j;
    while i < n
        invariant
            j <= i <= n == s@.len(),
            section_end(s@, j as int) == section_end(s@, i as int),
        decreases n - i,
    {
        if s.get_char(i) == '[' && blanks_before_exec(s, i) {
            return i;
        }
        i = i + 1;
    }
    i
}

/// The text of the settings section, if the text has a `[Network]` header.
pub fn settings_section_of(s: &str) -> (r: Option<String>)
    ensures
        match r {
            Some(t) => settings_section(s@) == Some(t@),
            None => settings_section(s@) is None,
        },
{
    let header = "[Network]";
    proof {
        reveal_strlit("[Network]");
        assert(header@ =~= network_header());
    }
    let n = s.unicode_len();
    match find_pattern(s, header, 0) {
        Some(i) => {
            let end = find_section_end(s, i + 9);
            let t = s.substring_char(i, end).to_owned();
            proof {
                assert(network_header().len() == 9);
                assert(header@ == network_header());
                assert(first_index(s@, network_header(), 0) == Some(i as int));
            }
            Some(t)
        },
        None => None,
    }
}


/// The first position in `j..hi` that holds `c`, or `hi`.
fn scan_to_exec(s: &str, c: char, j: usize, hi: usize) -> (r: usize)
    requires
        j <= hi <= s@.len(),
    ensures
        r == scan_to(s@, c, j as int, hi as int),
        j <= r <= hi,
{
    let mut i = j;
    while i < hi
        invariant
            j <= i <= hi <= s@.len(),
            scan_to(s@, c, j as int, hi as int) == scan_to(s@, c, i as int, hi as int),
        decreases hi - i,
    {
        if s.get_char(i) == c {
            return i;
        }
        i = i + 1;
    }
    i
}

fn is_word_char_exec(c: char) -> (r: bool)
    ensures
        r == is_word_char(c),
{
    ('0' <= c && c <= '9') || ('a' <= c && c <= 'z') || ('A' <= c && c <= 'Z') || c == '_'
}

/// The end of the run of word characters that starts at `j`, within `hi`.
fn word_end_exec(s: &str, j: usize, hi: usize) -> (r: usize)
    requires
        j <= hi <= s@.len(),
    ensures
        r == word_end(s@, j as int, hi as int),
        j <= r <= hi,
{
    let mut i = j;
    while i < hi
        invariant
            j <= i <= hi <= s@.len(),
            word_end(s@, j as int, hi as int) == word_end(s@, i as int, hi as int),
        decreases hi - i,
    {
        if !is_word_char_exec(s.get_char(i)) {
            return i;
        }
        i = i + 1;
    }
    i
}

/// The end of the run of digits and dots that starts at `j`, within `hi`.
fn run_end_exec(s: &str, j: usize, hi: usize) -> (r: usize)
    requires
        j <= hi <= s@.len(),
    ensures
        r == run_end(s@, j as int, hi as int),
        j <= r <= hi,
{
    let mut i = j;
    while i < hi
        invariant
            j <= i <= hi <= s@.len(),
            run_end(s@, j as int, hi as int) == run_end(s@, i as int, hi as int),
        decreases hi - i,
    {
        let c = s.get_char(i);
        if !(('0' <= c && c <= '9') || c == '.') {
            return i;
        }
        i = i + 1;
    }
    i
}

/// Where the first slash of the value `s[lo..hi]` stands, or `hi`.
pub fn scan_to_slash(s: &str, lo: usize, hi: usize) -> (r: usize)
    requires
        lo <= hi <= s@.len(),
    ensures
        r == scan_to(s@, '/', lo as int, hi as int),
        lo <= r <= hi,
{
    scan_to_exec(s, '/', lo, hi)
}

/// Whether the value `s[lo..hi]` reads `address/prefix`, and then its prefix length.
pub fn match_cidr(s: &str, lo: usize, hi: usize) -> (r: Option<u8>)
    requires
        lo <= hi <= s@.len(),
    ensures
        r is Some <==> cidr_match(s@, lo as int, hi as int),
        r matches Some(p) ==> 1 <= p <= 32 && octet_text(p as int) == prefix_part(
            s@,
            lo as int,
            hi as int,
        ),
{
    let k = scan_to_exec(s, '/', lo, hi);
    if !(lo < k && k < hi) || !is_word_char_exec(s.get_char(k - 1)) {
        return None;
    }
    let w = word_end_exec(s, k + 1, hi);
    match parse_octet(s, k + 1, w) {
        Some(p) => {
            if 1 <= p && p <= 32 {
                Some(p)
            } else {
                proof {
                    assert forall|n: int| 1 <= n <= 32 implies prefix_part(s@, lo as int, hi as int)
                        != octet_text(n) by {
                        if prefix_part(s@, lo as int, hi as int) == octet_text(n) {
                            lemma_octet_text_injective(n, p as int);
                        }
                    }
                }
                None
            }
        },
        None => {
            proof {
                assert forall|n: int| 1 <= n <= 32 implies prefix_part(s@, lo as int, hi as int)
                    != octet_text(n) by {
                    assert(octet_text((n as u8) as int) == octet_text(n));
                }
            }
            None
        },
    }
}

/// The first place in `s` where `key` stands and the text after it reads `address/prefix`:
/// where that text starts, the end of `s`, and the prefix length.
pub fn find_cidr_key(s: &str, key: &str) -> (r: Option<(usize, usize, u8)>)
    ensures
        match r {
            Some((lo, hi, p)) => first_cidr_key(s@, key@, 0) matches Some(i) && lo == value_start(
                i,
                key@,
            ) && hi == s@.len() && lo <= hi && 1 <= p <= 32 && octet_text(
                p as int,
            ) == prefix_part(s@, lo as int, hi as int),
            None => first_cidr_key(s@, key@, 0) is None,
        },
{
    let n = s.unicode_len();
    let m = key.unicode_len();
    let mut i: usize = 0;
    while i < n
        invariant
            i <= n == s@.len(),
            m == key@.len(),
            first_cidr_key(s@, key@, 0) == first_cidr_key(s@, key@, i as int),
        decreases n - i,
    {
        if matches_at(s, i, key) {
            match match_cidr(s, i + m, n) {
                Some(p) => {
                    return Some((i + m, n, p));
                },
                None => {},
            }
        }
        i = i + 1;
    }
    None
}

/// The first place in `s` where `key` stands followed by a digit or a dot: where that
/// text starts, and the end of `s`.
pub fn find_run_key(s: &str, key: &str) -> (r: Option<(usize, usize)>)
    ensures
        match r {
            Some((lo, hi)) => first_run_key(s@, key@, 0) matches Some(i) && lo == value_start(
                i,
                key@,
            ) && hi == s@.len() && lo <= hi,
            None => first_run_key(s@, key@, 0) is None,
        },
{
    let n = s.unicode_len();
    let m = key.unicode_len();
    let mut i: usize = 0;
    while i < n
        invariant
            i <= n == s@.len(),
            m == key@.len(),
            first_run_key(s@, key@, 0) == first_run_key(s@, key@, i as int),
        decreases n - i,
    {
        if matches_at(s, i, key) && i + m < n {
            let c = s.get_char(i + m);
            if ('0' <= c && c <= '9') || c == '.' {
                return Some((i + m, n));
            }
        }
        i = i + 1;
    }
    None
}

/// The address at the head of the value `s[lo..hi]`: its run of digits and dots, read as a
/// dotted quad.
pub fn read_run(s: &str, lo: usize, hi: usize) -> (r: Option<Ipv4Address>)
    requires
        lo <= hi <= s@.len(),
    ensures
        match r {
            Some(a) => ipv4_text(a) == run_part(s@, lo as int, hi as int),
            None => !is_ipv4_text(run_part(s@, lo as int, hi as int)),
        },
{
    let e = run_end_exec(s, lo, hi);
    parse_ipv4(s, lo, e)
}

/// The addresses in the runs of digits and dots that follow each `key` in `s`, in order;
/// runs that are no dotted-quad address are passed over.
pub fn address_list(s: &str, key: &str) -> (r: Vec<Ipv4Address>)
    ensures
        r@.len() == run_addresses(s@, key@, 0).len(),
        forall|j: int| 0 <= j < r@.len() ==> ipv4_text(#[trigger] r@[j]) == run_addresses(
            s@,
            key@,
            0,
        )[j],
{
    let n = s.unicode_len();
    let m = key.unicode_len();
    let mut out: Vec<Ipv4Address> = Vec::new();
    let mut i: usize = 0;
    while i < n
        invariant
            i <= n == s@.len(),
            m == key@.len(),
            out@.len() + run_addresses(s@, key@, i as int).len() == run_addresses(
                s@,
                key@,
                0,
            ).len(),
            forall|j: int| 0 <= j < out@.len() ==> ipv4_text(#[trigger] out@[j]) == run_addresses(
                s@,
                key@,
                0,
            )[j],
            forall|j: int|
                0 <= j < run_addresses(s@, key@, i as int).len() ==> #[trigger] run_addresses(
                    s@,
                    key@,
                    i as int,
                )[j] == run_addresses(s@, key@, 0)[out@.len() as int + j],
        decreases n - i,
    {
        let ghost rest = run_addresses(s@, key@, i as int);
        if matches_at(s, i, key) {
            match read_run(s, i + m, n) {
                Some(a) => {
                    proof {
                        let v = run_part(s@, i + m, n as int);
                        assert(rest =~= seq![v] + run_addresses(s@, key@, i + 1));
                        assert(rest[0] == run_addresses(s@, key@, 0)[out@.len() as int]);
                        assert forall|j: int|
                            0 <= j < run_addresses(s@, key@, i + 1).len() implies #[trigger] run_addresses(
                                s@,
                                key@,
                                i + 1,
                            )[j] == run_addresses(s@, key@, 0)[out@.len() as int + 1 + j] by {
                            assert(run_addresses(s@, key@, i + 1)[j] == rest[j + 1]);
                        }
                    }
                    out.push(a);
                },
                None => {},
            }
        }
        i = i + 1;
    }
    out
}

/// There is a settings section exactly when a `[Network]` header stands in the text, and
/// then it starts with that header.
pub proof fn lemma_settings_section_header(s: Seq<char>)
    ensures
        settings_section(s) is None <==> (forall|i: int| !occurs_at(s, i, network_header())),
        settings_section(s) matches Some(t) ==> t.len() >= network_header().len()
            && t.subrange(0, network_header().len() as int) == network_header(),
{
    lemma_first_index(s, network_header(), 0);
    if let Some(i) = first_index(s, network_header(), 0) {
        let e = section_end(s, i + network_header().len());
        lemma_section_end(s, i + network_header().len());
        assert(s.subrange(i, e).subrange(0, network_header().len() as int) =~= s.subrange(
            i,
            i + network_header().len(),
        ));
    }
}

proof fn lemma_section_end(s: Seq<char>, j: int)
    requires
        0 <= j <= s.len(),
    ensures
        j <= section_end(s, j) <= s.len(),
    decreases s.len() - j,
{
    if j < s.len() && !opens_header(s, j) {
        lemma_section_end(s, j + 1);
    }
}

/// `first_index` finds `p` exactly when it stands somewhere at or after `from`.
proof fn lemma_first_index(s: Seq<char>, p: Seq<char>, from: int)
    requires
        0 <= from,
    ensures
        first_index(s, p, from) matches Some(i) ==> from <= i && occurs_at(s, i, p),
        first_index(s, p, from) is None <==> (forall|i: int| from <= i ==> !occurs_at(s, i, p)),
    decreases s.len() + 1 - from,
{
    if from + p.len() > s.len() {
    } else if occurs_at(s, from, p) {
    } else {
        lemma_first_index(s, p, from + 1);
    }
}

} // verus!
