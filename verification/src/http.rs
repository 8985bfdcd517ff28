//! Minimal HTTP request framing for the permission endpoint: find the end of
//! the headers, read `Content-Length` the way the header text says it, and
//! collect exactly that many body bytes. Only the body matters; method, path
//! and every other header are ignored.
use vstd::prelude::*;
use crate::text::occurs_at;

verus! {

/// First position at which `needle` occurs in `hay`.
pub open spec fn first_occurrence(hay: Seq<u8>, needle: Seq<u8>) -> Option<int>
    decreases hay.len(),
{
    if hay.len() < needle.len() || hay.len() == 0 {
        None
    } else {
        match first_occurrence(hay.drop_last(), needle) {
            Some(i) => Some(i),
            None => if occurs_at(hay, needle, hay.len() - needle.len()) {
                Some(hay.len() - needle.len())
            } else {
                None
            },
        }
    }
}

/// `first_occurrence` finds the first occurrence.
pub proof fn lemma_first_occurrence_found(hay: Seq<u8>, needle: Seq<u8>)
    requires
        needle.len() > 0,
    ensures
        match first_occurrence(hay, needle) {
            Some(p) => occurs_at(hay, needle, p) && forall|j: int| 0 <= j < p ==> !occurs_at(hay, needle, j),
            None => forall|j: int| !occurs_at(hay, needle, j),
        },
    decreases hay.len(),
{
    if hay.len() < needle.len() || hay.len() == 0 {
    } else {
        let d = hay.drop_last();
        lemma_first_occurrence_found(d, needle);
        assert forall|j: int| 0 <= j && j + needle.len() <= d.len() implies
            (occurs_at(d, needle, j) == occurs_at(hay, needle, j)) by {
            assert(d.subrange(j, j + needle.len()) =~= hay.subrange(j, j + needle.len()));
        }
    }
}

/// Whatever satisfies the "first occurrence" property is `first_occurrence`.
pub proof fn lemma_first_occurrence_char(hay: Seq<u8>, needle: Seq<u8>, r: Option<int>)
    requires
        needle.len() > 0,
        match r {
            Some(p) => occurs_at(hay, needle, p) && forall|j: int| 0 <= j < p ==> !occurs_at(hay, needle, j),
            None => forall|j: int| !occurs_at(hay, needle, j),
        },
    ensures
        first_occurrence(hay, needle) == r,
{
    lemma_first_occurrence_found(hay, needle);
    match first_occurrence(hay, needle) {
        Some(f) => match r {
            Some(p) => {
                if f < p {
                } else if p < f {
                }
            },
            None => {},
        },
        None => {},
    }
}

fn bytes_occur_at(hay: &[u8], needle: &[u8], i: usize) -> (r: bool)
    requires
        i + needle@.len() <= hay@.len(),
    ensures
        r == occurs_at(hay@, needle@, i as int),
{
    let m = needle.len();
    let n = hay.len();
    let mut k: usize = 0;
    while k < m
        invariant
            m == needle@.len(),
            n == hay@.len(),
            i + m <= n,
            k <= m,
            forall|j: int| 0 <= j < k ==> hay@[i + j] == needle@[j],
        decreases m - k,
    {
        if hay[i + k] != needle[k] {
            assert(hay@.subrange(i as int, i + m)[k as int] != needle@[k as int]);
            return false;
        }
        k += 1;
    }
    assert(hay@.subrange(i as int, i + m) =~= needle@);
    true
}

/// Position of the first window of `haystack` equal to `needle`
/// (`needle` must not be empty).
pub fn find_subsequence(haystack: &[u8], needle: &[u8]) -> (r: Option<usize>)
    requires
        needle@.len() > 0,
    ensures
        match r {
            Some(i) => first_occurrence(haystack@, needle@) == Some(i as int),
            None => first_occurrence(haystack@, needle@) is None,
        },
{
    let n = haystack.len();
    let m = needle.len();
    if m > n {
        assert forall|i: int| !occurs_at(haystack@, needle@, i) by {}
        proof {
            lemma_first_occurrence_char(haystack@, needle@, None);
        }
        return None;
    }
    let last = n - m;
    let mut i: usize = 0;
    while i <= last
        invariant
            n == haystack@.len(),
            m == needle@.len(),
            last == n - m,
            m > 0,
            i <= last + 1,
            forall|j: int| 0 <= j < i ==> !occurs_at(haystack@, needle@, j),
        decreases last + 1 - i,
    {
        if bytes_occur_at(haystack, needle, i) {
            proof {
                lemma_first_occurrence_char(haystack@, needle@, Some(i as int));
            }
            return Some(i);
        }
        if i == last {
            assert forall|j: int| !occurs_at(haystack@, needle@, j) by {
                if 0 <= j <= last {
                }
            }
            proof {
                lemma_first_occurrence_char(haystack@, needle@, None);
            }
            return None;
        }
        i += 1;
    }
    proof {
        lemma_first_occurrence_char(haystack@, needle@, None);
    }
    None
}

/// ASCII lowercase of one byte.
pub open spec fn lower(b: u8) -> u8 {
    if 65 <= b <= 90 { (b + 32) as u8 } else { b }
}

/// Position of the first `\n` byte.
pub open spec fn newline_index(s: Seq<u8>) -> Option<nat>
    decreases s.len(),
{
    if s.len() == 0 {
        None
    } else {
        match newline_index(s.drop_last()) {
            Some(i) => Some(i),
            None => if s.last() == 10u8 { Some((s.len() - 1) as nat) } else { None },
        }
    }
}

/// `newline_index` finds the first `\n`.
pub proof fn lemma_newline_index(s: Seq<u8>)
    ensures
        match newline_index(s) {
            Some(i) => i < s.len() && s[i as int] == 10u8 && forall|k: int| 0 <= k < i ==> s[k] != 10u8,
            None => forall|k: int| 0 <= k < s.len() ==> s[k] != 10u8,
        },
    decreases s.len(),
{
    if s.len() > 0 {
        let d = s.drop_last();
        lemma_newline_index(d);
        assert forall|k: int| 0 <= k < d.len() implies d[k] == s[k] by {}
    }
}

/// The lines of a text: split at each `\n`, a `\r` right before it dropped
/// too; a final line ending adds no empty line.
pub open spec fn split_lines(s: Seq<u8>) -> Seq<Seq<u8>>
    decreases s.len(),
{
    if s.len() == 0 {
        Seq::empty()
    } else {
        proof {
            lemma_newline_index(s);
        }
        match newline_index(s) {
            Some(k) => {
                let line = s.take(k as int);
                let line = if line.len() > 0 && line.last() == 13u8 { line.drop_last() } else { line };
                seq![line] + split_lines(s.skip(k as int + 1))
            },
            None => seq![s],
        }
    }
}

/// The header name (with colon) `Content-Length` is matched against.
pub open spec fn cl_prefix() -> Seq<u8> {
    seq![99u8, 111, 110, 116, 101, 110, 116, 45, 108, 101, 110, 103, 116, 104, 58]
}

/// Whether a line starts, case-insensitively, with `content-length:`.
pub open spec fn is_cl_line(line: Seq<u8>) -> bool {
    line.len() >= cl_prefix().len()
        && forall|k: int| 0 <= k < cl_prefix().len() ==> lower(#[trigger] line[k]) == cl_prefix()[k]
}

/// The text after `content-length:` on the first line that has it.
pub open spec fn cl_value(lines: Seq<Seq<u8>>) -> Option<Seq<u8>>
    decreases lines.len(),
{
    if lines.len() == 0 {
        None
    } else if is_cl_line(lines[0]) {
        Some(lines[0].skip(cl_prefix().len() as int))
    } else {
        cl_value(lines.skip(1))
    }
}

/// Byte length of the UTF-8 whitespace character `s` starts with (0 when
/// it does not start with one).
pub open spec fn ws_prefix_len(s: Seq<u8>) -> nat {
    if s.len() >= 1 && ((9 <= s[0] <= 13) || s[0] == 32) {
        1
    } else if s.len() >= 2 && s[0] == 0xC2 && (s[1] == 0x85 || s[1] == 0xA0) {
        2
    } else if s.len() >= 3 && s[0] == 0xE1 && s[1] == 0x9A && s[2] == 0x80 {
        3
    } else if s.len() >= 3 && s[0] == 0xE2 && s[1] == 0x80 && (s[2] <= 0x8A && s[2] >= 0x80
        || s[2] == 0xA8 || s[2] == 0xA9 || s[2] == 0xAF) {
        3
    } else if s.len() >= 3 && s[0] == 0xE2 && s[1] == 0x81 && s[2] == 0x9F {
        3
    } else if s.len() >= 3 && s[0] == 0xE3 && s[1] == 0x80 && s[2] == 0x80 {
        3
    } else {
        0
    }
}

/// Byte length of the UTF-8 whitespace character `s` ends with (0 when it
/// does not end with one).
pub open spec fn ws_suffix_len(s: Seq<u8>) -> nat {
    if s.len() >= 1 && ((9 <= s.last() <= 13) || s.last() == 32) {
        1
    } else if s.len() >= 2 && ws_prefix_len(s.skip(s.len() - 2)) == 2 {
        2
    } else if s.len() >= 3 && ws_prefix_len(s.skip(s.len() - 3)) == 3 {
        3
    } else {
        0
    }
}

/// `s` without leading whitespace.
pub open spec fn trim_start(s: Seq<u8>) -> Seq<u8>
    decreases s.len(),
{
    if ws_prefix_len(s) > 0 { trim_start(s.skip(ws_prefix_len(s) as int)) } else { s }
}

/// `s` without trailing whitespace.
pub open spec fn trim_end(s: Seq<u8>) -> Seq<u8>
    decreases s.len(),
{
    if ws_suffix_len(s) > 0 { trim_end(s.take(s.len() - ws_suffix_len(s))) } else { s }
}

/// Whether every byte is an ASCII digit.
pub open spec fn all_digits(s: Seq<u8>) -> bool {
    forall|k: int| 0 <= k < s.len() ==> 48 <= #[trigger] s[k] <= 57
}

/// The number written by a string of ASCII digits.
pub open spec fn digits_value(s: Seq<u8>) -> nat
    decreases s.len(),
{
    if s.len() == 0 { 0 } else { digits_value(s.drop_last()) * 10 + (s.last() - 48) as nat }
}

/// Parsing an unsigned integer: an optional `+`, then one or more digits,
/// no larger than `max`.
pub open spec fn parse_unsigned(s: Seq<u8>, max: nat) -> Option<nat> {
    let d = if s.len() > 0 && s[0] == 43u8 { s.skip(1) } else { s };
    if d.len() == 0 || !all_digits(d) || digits_value(d) > max {
        None
    } else {
        Some(digits_value(d))
    }
}

/// The body length a request's headers announce: the first
/// `Content-Length` line's trimmed value parsed as a number, 0 when there is
/// none or it does not parse.
pub open spec fn spec_content_length(headers: Seq<u8>) -> nat {
    match cl_value(split_lines(headers)) {
        Some(v) => match parse_unsigned(trim_end(trim_start(v)), usize::MAX as nat) {
            Some(n) => n,
            None => 0,
        },
        None => 0,
    }
}

fn ws_prefix_at(h: &[u8], a: usize, b: usize) -> (r: usize)
    requires
        a <= b <= h@.len(),
    ensures
        r == ws_prefix_len(h@.subrange(a as int, b as int)),
{
    let ghost s = h@.subrange(a as int, b as int);
    let len = b - a;
    if len >= 1 && ((9 <= h[a] && h[a] <= 13) || h[a] == 32) {
        return 1;
    }
    if len >= 2 && h[a] == 0xC2 && (h[a + 1] == 0x85 || h[a + 1] == 0xA0) {
        return 2;
    }
    if len >= 3 {
        let (x, y, z) = (h[a], h[a + 1], h[a + 2]);
        assert(x == s[0] && y == s[1] && z == s[2]);
        if x == 0xE1 && y == 0x9A && z == 0x80 {
            return 3;
        }
        if x == 0xE2 && y == 0x80 && (z <= 0x8A && z >= 0x80 || z == 0xA8 || z == 0xA9 || z == 0xAF) {
            return 3;
        }
        if x == 0xE2 && y == 0x81 && z == 0x9F {
            return 3;
        }
        if x == 0xE3 && y == 0x80 && z == 0x80 {
            return 3;
        }
    }
    0
}

fn ws_suffix_at(h: &[u8], a: usize, b: usize) -> (r: usize)
    requires
        a <= b <= h@.len(),
    ensures
        r == ws_suffix_len(h@.subrange(a as int, b as int)),
{
    let ghost s = h@.subrange(a as int, b as int);
    let len = b - a;
    if len >= 1 && ((9 <= h[b - 1] && h[b - 1] <= 13) || h[b - 1] == 32) {
        return 1;
    }
    if len >= 2 && ws_prefix_at(h, b - 2, b) == 2 {
        assert(s.skip(s.len() - 2) =~= h@.subrange(b - 2, b as int));
        return 2;
    }
    if len >= 2 {
        assert(s.skip(s.len() - 2) =~= h@.subrange(b - 2, b as int));
    }
    if len >= 3 && ws_prefix_at(h, b - 3, b) == 3 {
        assert(s.skip(s.len() - 3) =~= h@.subrange(b - 3, b as int));
        return 3;
    }
    if len >= 3 {
        assert(s.skip(s.len() - 3) =~= h@.subrange(b - 3, b as int));
    }
    0
}

/// Parses `h[a..b]` as an unsigned integer (`usize::from_str`).
fn parse_usize_range(h: &[u8], a: usize, b: usize) -> (r: Option<usize>)
    requires
        a <= b <= h@.len(),
    ensures
        match r {
            Some(n) => parse_unsigned(h@.subrange(a as int, b as int), usize::MAX as nat) == Some(n as nat),
            None => parse_unsigned(h@.subrange(a as int, b as int), usize::MAX as nat) is None,
        },
{
    let ghost s = h@.subrange(a as int, b as int);
    let start = if a < b && h[a] == 43u8 { a + 1 } else { a };
    let ghost d = h@.subrange(start as int, b as int);
    assert(d =~= (if s.len() > 0 && s[0] == 43u8 { s.skip(1) } else { s }));
    if start == b {
        assert(d.len() == 0);
        return None;
    }
    let mut value: usize = 0;
    let mut i: usize = start;
    while i < b
        invariant
            a <= start <= i <= b <= h@.len(),
            d == h@.subrange(start as int, b as int),
            s == h@.subrange(a as int, b as int),
            d == (if s.len() > 0 && s[0] == 43u8 { s.skip(1) } else { s }),
            d.len() > 0,
            all_digits(h@.subrange(start as int, i as int)),
            value as nat == digits_value(h@.subrange(start as int, i as int)),
        decreases b - i,
    {
        let c = h[i];
        let ghost pre = h@.subrange(start as int, i as int);
        let ghost next = h@.subrange(start as int, i + 1);
        assert(next.drop_last() =~= pre);
        assert(next.last() == c);
        if c < 48 || c > 57 {
            assert(!all_digits(d)) by {
                assert(d[i - start] == c);
            }
            return None;
        }
        let dv = (c - 48) as usize;
        match value.checked_mul(10) {
            Some(m) => match m.checked_add(dv) {
                Some(v2) => {
                    value = v2;
                },
                None => {
                    proof {
                        if all_digits(d) {
                            lemma_digits_grow(d, i - start + 1);
                            assert(d.take(i - start + 1) =~= next);
                        }
                    }
                    return None;
                },
            },
            None => {
                proof {
                    if all_digits(d) {
                        lemma_digits_grow(d, i - start + 1);
                        assert(d.take(i - start + 1) =~= next);
                        assert(digits_value(next) == digits_value(pre) * 10 + (c - 48) as nat);
                        assert(digits_value(pre) * 10 > usize::MAX as nat);
                    }
                }
                return None;
            },
        }
        i += 1;
    }
    assert(h@.subrange(start as int, b as int) =~= d);
    Some(value)
}

/// A digit string's value is at least the value of any of its prefixes.
pub proof fn lemma_digits_grow(d: Seq<u8>, k: int)
    requires
        0 <= k <= d.len(),
        all_digits(d),
    ensures
        digits_value(d) >= digits_value(d.take(k)),
    decreases d.len() - k,
{
    if k < d.len() {
        lemma_digits_grow(d, k + 1);
        assert(d.take(k + 1).drop_last() =~= d.take(k));
        assert(d[k] >= 48);
    } else {
        assert(d.take(k) =~= d);
    }
}

/// Parses the value after `content-length:` (`h[a..b]`): trimmed, then
/// read as a number; 0 when it does not parse.
fn value_length(h: &[u8], a: usize, b: usize) -> (r: usize)
    requires
        a <= b <= h@.len(),
    ensures
        r as nat == match parse_unsigned(trim_end(trim_start(h@.subrange(a as int, b as int))), usize::MAX as nat) {
            Some(n) => n,
            None => 0,
        },
{
    let mut lo = a;
    while lo < b && ws_prefix_at(h, lo, b) > 0
        invariant
            a <= lo <= b <= h@.len(),
            trim_start(h@.subrange(a as int, b as int)) == trim_start(h@.subrange(lo as int, b as int)),
        decreases b - lo,
    {
        let w = ws_prefix_at(h, lo, b);
        assert(h@.subrange(lo as int, b as int).skip(w as int) =~= h@.subrange(lo + w, b as int));
        lo = lo + w;
    }
    assert(trim_start(h@.subrange(lo as int, b as int)) == h@.subrange(lo as int, b as int)) by {
        if lo == b {
            assert(ws_prefix_len(h@.subrange(lo as int, b as int)) == 0);
        }
    }
    let mut hi = b;
    while hi > lo && ws_suffix_at(h, lo, hi) > 0
        invariant
            a <= lo <= hi <= b <= h@.len(),
            trim_end(h@.subrange(lo as int, b as int)) == trim_end(h@.subrange(lo as int, hi as int)),
        decreases hi - lo,
    {
        let w = ws_suffix_at(h, lo, hi);
        assert(h@.subrange(lo as int, hi as int).take(hi - lo - w) =~= h@.subrange(lo as int, hi - w));
        hi = hi - w;
    }
    assert(trim_end(h@.subrange(lo as int, hi as int)) == h@.subrange(lo as int, hi as int)) by {
        if lo == hi {
            assert(ws_suffix_len(h@.subrange(lo as int, hi as int)) == 0);
        }
    }
    match parse_usize_range(h, lo, hi) {
        Some(n) => n,
        None => 0,
    }
}

fn newline_from(h: &[u8], p: usize) -> (r: Option<usize>)
    requires
        p <= h@.len(),
    ensures
        match r {
            Some(k) => p <= k < h@.len() && newline_index(h@.skip(p as int)) == Some((k - p) as nat),
            None => newline_index(h@.skip(p as int)) is None,
        },
{
    proof {
        lemma_newline_index(h@.skip(p as int));
    }
    let n = h.len();
    let mut k = p;
    while k < n
        invariant
            n == h@.len(),
            p <= k <= n,
            forall|j: int| p <= j < k ==> h@[j] != 10u8,
        decreases n - k,
    {
        if h[k] == 10u8 {
            proof {
                let t = h@.skip(p as int);
                lemma_newline_index(t);
                match newline_index(t) {
                    Some(f) => {
                        if (f as int) < k - p {
                            assert(t[f as int] == h@[p + f]);
                        } else if (f as int) > k - p {
                            assert(t[k - p] == 10u8);
                        }
                    },
                    None => {
                        assert(t[k - p] == 10u8);
                    },
                }
            }
            return Some(k);
        }
        k += 1;
    }
    proof {
        let t = h@.skip(p as int);
        lemma_newline_index(t);
        match newline_index(t) {
            Some(f) => {
                assert(t[f as int] == h@[p + f]);
            },
            None => {},
        }
    }
    None
}

fn is_cl_line_at(h: &[u8], a: usize, b: usize) -> (r: bool)
    requires
        a <= b <= h@.len(),
    ensures
        r == is_cl_line(h@.subrange(a as int, b as int)),
{
    let prefix: [u8; 15] = [99u8, 111, 110, 116, 101, 110, 116, 45, 108, 101, 110, 103, 116, 104, 58];
    assert(prefix@ =~= cl_prefix());
    if b - a < 15 {
        return false;
    }
    let mut k: usize = 0;
    while k < 15
        invariant
            a + 15 <= b <= h@.len(),
            prefix@ == cl_prefix(),
            k <= 15,
            forall|j: int| 0 <= j < k ==> lower(#[trigger] h@.subrange(a as int, b as int)[j]) == cl_prefix()[j],
        decreases 15 - k,
    {
        let c = h[a + k];
        let lc = if 65 <= c && c <= 90 { c + 32 } else { c };
        assert(h@.subrange(a as int, b as int)[k as int] == c);
        if lc != prefix[k] {
            return false;
        }
        k += 1;
    }
    true
}

/// The body length the header block `headers` announces in its
/// `Content-Length` line; 0 when it has none or the value does not parse.
pub fn content_length(headers: &[u8]) -> (n: usize)
    ensures
        n as nat == spec_content_length(headers@),
{
    let len = headers.len();
    let mut p: usize = 0;
    assert(headers@.skip(0) =~= headers@);
    while p < len
        invariant
            len == headers@.len(),
            p <= len,
            cl_value(split_lines(headers@)) == cl_value(split_lines(headers@.skip(p as int))),
        decreases len - p,
    {
        let ghost t = headers@.skip(p as int);
        let (line_end, next) = match newline_from(headers, p) {
            Some(k) => {
                let e = if k > p && headers[k - 1] == 13u8 { k - 1 } else { k };
                (e, k + 1)
            },
            None => (len, len),
        };
        proof {
            lemma_newline_index(t);
            let lines = split_lines(t);
            match newline_index(t) {
                Some(k) => {
                    let line = t.take(k as int);
                    assert(line =~= headers@.subrange(p as int, (p + k) as int));
                    if line.len() > 0 && line.last() == 13u8 {
                        assert(line.drop_last() =~= headers@.subrange(p as int, line_end as int));
                    } else {
                        assert(line =~= headers@.subrange(p as int, line_end as int));
                    }
                    assert(t.skip(k as int + 1) =~= headers@.skip(next as int));
                    assert(lines[0] == headers@.subrange(p as int, line_end as int));
                    assert(lines.skip(1) =~= split_lines(headers@.skip(next as int)));
                },
                None => {
                    assert(t =~= headers@.subrange(p as int, line_end as int));
                    assert(lines =~= seq![t]);
                    assert(lines.skip(1) =~= Seq::<Seq<u8>>::empty());
                    assert(headers@.skip(len as int) =~= Seq::<u8>::empty());
                    assert(split_lines(headers@.skip(next as int)) =~= Seq::<Seq<u8>>::empty());
                },
            }
        }
        if is_cl_line_at(headers, p, line_end) {
            assert(headers@.subrange(p as int, line_end as int).skip(15) =~= headers@.subrange(p + 15, line_end as int));
            return value_length(headers, p + 15, line_end);
        }
        p = next;
    }
    assert(headers@.skip(p as int) =~= Seq::<u8>::empty());
    0
}

/// The header terminator `\r\n\r\n`.
pub open spec fn crlf2() -> Seq<u8> {
    seq![13u8, 10, 13, 10]
}

/// Header bytes beyond which a request without a header terminator is
/// abandoned.
pub const MAX_HEADER_BYTES: usize = 1000000;

/// One step of reading a request.
pub enum ReadStep {
    /// Keep reading.
    NeedMore,
    /// Give up: the connection ended before the headers did, or they grew
    /// past `MAX_HEADER_BYTES`.
    Failed,
    /// The request body.
    Done(Vec<u8>),
}

/// Accumulates a request read in arbitrary pieces: first until the header
/// terminator, then until `Content-Length` body bytes (or the end of the
/// connection).
pub struct RequestReader {
    buf: Vec<u8>,
    body_start: Option<usize>,
    content_length: usize,
}

fn append_bytes(v: &mut Vec<u8>, add: &[u8])
    ensures
        final(v)@ == old(v)@ + add@,
{
    let n = add.len();
    let mut i: usize = 0;
    while i < n
        invariant
            n == add@.len(),
            i <= n,
            v@ == old(v)@ + add@.take(i as int),
        decreases n - i,
    {
        v.push(add[i]);
        assert(add@.take(i + 1) =~= add@.take(i as int).push(add@[i as int]));
        i += 1;
    }
    assert(add@.take(n as int) =~= add@);
}

fn copy_range(v: &Vec<u8>, a: usize, b: usize) -> (r: Vec<u8>)
    requires
        a <= b <= v@.len(),
    ensures
        r@ == v@.subrange(a as int, b as int),
{
    let mut out: Vec<u8> = Vec::new();
    append_bytes(&mut out, &v.as_slice()[a..b]);
    out
}

/// The body a complete request yields: the bytes after the headers, cut at
/// the announced length.
pub open spec fn body_of(buf: Seq<u8>, start: int, cl: nat) -> Seq<u8> {
    if buf.len() - start >= cl {
        buf.subrange(start, start + cl)
    } else {
        buf.subrange(start, buf.len() as int)
    }
}

impl RequestReader {
    /// Everything received so far.
    pub closed spec fn received(&self) -> Seq<u8> {
        self.buf@
    }

    /// Where the body starts, once the headers are complete.
    pub closed spec fn body_start(&self) -> Option<nat> {
        match self.body_start {
            Some(s) => Some(s as nat),
            None => None,
        }
    }

    /// The announced body length (meaningful once the headers are complete).
    pub closed spec fn announced(&self) -> nat {
        self.content_length as nat
    }

    /// The header phase keeps nothing but raw bytes; the body phase knows
    /// where the headers ended and what they announced.
    pub open spec fn wf(&self) -> bool {
        match self.body_start() {
            Some(s) => {
                &&& first_occurrence(self.received(), crlf2()) == Some(s - 4)
                &&& s <= self.received().len()
                &&& self.announced() == spec_content_length(self.received().take(s as int))
                &&& self.received().len() - s < self.announced()
            },
            None => first_occurrence(self.received(), crlf2()) is None,
        }
    }

    /// A reader that has received nothing.
    pub fn new() -> (r: RequestReader)
        ensures
            r.received() == Seq::<u8>::empty(),
            r.body_start() is None,
            r.wf(),
    {
        let r = RequestReader { buf: Vec::new(), body_start: None, content_length: 0 };
        assert(forall|i: int| !occurs_at(r.buf@, crlf2(), i));
        r
    }

    /// Takes the next piece read off the connection.
    pub fn on_data(&mut self, chunk: &[u8]) -> (step: ReadStep)
        requires
            old(self).wf(),
        ensures
            final(self).received() == old(self).received() + chunk@,
            match old(self).body_start() {
                Some(s) => match step {
                    ReadStep::Done(body) => final(self).received().len() - s >= old(self).announced()
                        && body@ == body_of(final(self).received(), s as int, old(self).announced()),
                    ReadStep::NeedMore => final(self).received().len() - s < old(self).announced() && final(self).wf(),
                    ReadStep::Failed => false,
                },
                None => match first_occurrence(final(self).received(), crlf2()) {
                    Some(p) => {
                        let s = p + 4;
                        let cl = spec_content_length(final(self).received().take(s));
                        match step {
                            ReadStep::Done(body) => final(self).received().len() - s >= cl
                                && body@ == body_of(final(self).received(), s, cl),
                            ReadStep::NeedMore => final(self).received().len() - s < cl && final(self).wf()
                                && final(self).body_start() == Some(s as nat),
                            ReadStep::Failed => false,
                        }
                    },
                    None => if final(self).received().len() > MAX_HEADER_BYTES {
                        step is Failed
                    } else {
                        step is NeedMore && final(self).wf() && final(self).body_start() is None
                    },
                },
            },
    {
        append_bytes(&mut self.buf, chunk);
        match self.body_start {
            Some(start) => {
                if self.buf.len() - start >= self.content_length {
                    let body = copy_range(&self.buf, start, start + self.content_length);
                    ReadStep::Done(body)
                } else {
                    proof {
                        assert(self.buf@.take(start as int) =~= old(self).buf@.take(start as int));
                        lemma_first_occurrence_extend(old(self).buf@, chunk@, crlf2(), (start - 4) as int);
                    }
                    ReadStep::NeedMore
                }
            },
            None => {
                let term: [u8; 4] = [13u8, 10, 13, 10];
                assert(term@ =~= crlf2());
                match find_subsequence(self.buf.as_slice(), &term) {
                    Some(p) => {
                        assert(occurs_at(self.buf@, crlf2(), p as int)) by {
                            lemma_first_occurrence_found(self.buf@, crlf2());
                        }
                        let blen = self.buf.len();
                        assert(p + 4 <= blen);
                        let start = p + 4;
                        let head = &self.buf.as_slice()[0..start];
                        assert(head@ =~= self.buf@.take(start as int));
                        let cl = content_length(head);
                        if self.buf.len() - start >= cl {
                            let body = copy_range(&self.buf, start, start + cl);
                            ReadStep::Done(body)
                        } else {
                            self.body_start = Some(start);
                            self.content_length = cl;
                            ReadStep::NeedMore
                        }
                    },
                    None => {
                        if self.buf.len() > MAX_HEADER_BYTES {
                            ReadStep::Failed
                        } else {
                            ReadStep::NeedMore
                        }
                    },
                }
            },
        }
    }

    /// The connection ended or failed: before the headers completed the
    /// request is abandoned, after it the body is whatever arrived.
    pub fn on_end(&self) -> (step: ReadStep)
        requires
            self.wf(),
        ensures
            match self.body_start() {
                Some(s) => step matches ReadStep::Done(body)
                    && body@ == body_of(self.received(), s as int, self.announced()),
                None => step is Failed,
            },
    {
        match self.body_start {
            Some(start) => {
                let body = copy_range(&self.buf, start, self.buf.len());
                ReadStep::Done(body)
            },
            None => ReadStep::Failed,
        }
    }
}

/// Appending bytes does not move the first occurrence of the terminator.
pub proof fn lemma_first_occurrence_extend(hay: Seq<u8>, more: Seq<u8>, needle: Seq<u8>, p: int)
    requires
        needle.len() > 0,
        first_occurrence(hay, needle) == Some(p),
    ensures
        first_occurrence(hay + more, needle) == Some(p),
    decreases more.len(),
{
    if more.len() > 0 {
        lemma_first_occurrence_extend(hay, more.drop_last(), needle, p);
        assert((hay + more).drop_last() =~= hay + more.drop_last());
        lemma_first_occurrence_found(hay, needle);
    } else {
        assert(hay + more =~= hay);
    }
}

/// The complete reply to a request: `200 OK` with a JSON body of its exact
/// byte length, closing the connection afterwards.
pub open spec fn response_text(body: Seq<char>) -> Seq<char> {
    "HTTP/1.1 200 OK\r\nContent-Type: application/json\r\nContent-Length: "@
        + crate::text::decimal(vstd::utf8::encode_utf8(body).len())
        + "\r\nConnection: close\r\n\r\n"@ + body
}

/// The reply carrying `json_body` (see `response_text`).
pub fn http_response(json_body: &str) -> (r: String)
    ensures
        r@ == response_text(json_body@),
{
    let mut v: Vec<char> = Vec::new();
    crate::text::push_str(&mut v, "HTTP/1.1 200 OK\r\nContent-Type: application/json\r\nContent-Length: ");
    let bytes = json_body.as_bytes();
    let len = bytes.len();
    let digits = crate::text::decimal_chars(len as u64);
    crate::text::push_all(&mut v, &digits);
    crate::text::push_str(&mut v, "\r\nConnection: close\r\n\r\n");
    crate::text::push_str(&mut v, json_body);
    crate::text::string_of(&v)
}

/// The reply carrying a JSON value, printed compactly by `serde_json`.
pub fn http_reply(body: &crate::json::JsonValue) -> (r: String)
    ensures
        r@ == response_text(crate::json_io::compact_json(body.j())),
{
    let text = crate::json_io::compact_text(body);
    http_response(text.as_str())
}

} // verus!
