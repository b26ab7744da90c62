//! Framing of a request on the wire: the head up to the first empty line,
//! then a body of `Content-Length` bytes or a chunked body; and the choice of
//! the strategy that answers a request.

use vstd::prelude::*;
use vstd::utf8::{encode_utf8, valid_utf8};
use crate::httprequest::{
    HttpRequest, RequestState, append_body, has_colon, head_scan_text, parse_lines, parse_request,
};
use crate::text::{chars_eq, chars_of, copy_range, extend, find_from, string_of, strip_cr};

verus! {

/// ASCII white space.
pub open spec fn is_ascii_ws(b: u8) -> bool {
    b == 9 || b == 10 || b == 11 || b == 12 || b == 13 || b == 32
}

/// The first index at or after `i` that is not white space (or the length).
pub open spec fn skip_ascii_ws(s: Seq<u8>, i: int) -> int
    decreases s.len() - i,
{
    if 0 <= i < s.len() && is_ascii_ws(s[i]) {
        skip_ascii_ws(s, i + 1)
    } else {
        i
    }
}

/// The end of `s[lo..j]` once white space is cut from its end.
pub open spec fn back_ascii_ws(s: Seq<u8>, lo: int, j: int) -> int
    decreases j - lo,
{
    if lo < j && j <= s.len() && is_ascii_ws(s[j - 1]) {
        back_ascii_ws(s, lo, j - 1)
    } else {
        j
    }
}

/// `s` without leading and trailing ASCII white space.
pub open spec fn trim_bytes(s: Seq<u8>) -> Seq<u8> {
    let a = skip_ascii_ws(s, 0);
    s.subrange(a, back_ascii_ws(s, a, s.len() as int))
}

/// An ASCII letter in lower case; any other byte as it is.
pub open spec fn lower_byte(b: u8) -> u8 {
    if 65 <= b <= 90 {
        (b + 32) as u8
    } else {
        b
    }
}

/// The value of a digit in base `base`, if `b` is one.
pub open spec fn digit_value(b: u8, base: nat) -> Option<nat> {
    let v: int = if 48 <= b <= 57 {
        b - 48
    } else if 97 <= b <= 102 {
        b - 87
    } else if 65 <= b <= 70 {
        b - 55
    } else {
        99
    };
    if v < base {
        Some(v as nat)
    } else {
        None
    }
}

/// Whether every byte of `s` is a digit in base `base`.
pub open spec fn all_digits(s: Seq<u8>, base: nat) -> bool {
    forall|i: int| 0 <= i < s.len() ==> (#[trigger] digit_value(s[i], base)) is Some
}

/// The number that the digits `s` write in base `base`.
pub open spec fn digits_value(s: Seq<u8>, base: nat) -> nat
    decreases s.len(),
{
    if s.len() == 0 {
        0
    } else {
        digits_value(s.drop_last(), base) * base + digit_value(s.last(), base).unwrap_or(0)
    }
}

/// The unsigned number that `s` writes in base `base`: an optional `+`, then
/// at least one digit, and a value that fits in `usize`; as
/// `usize::from_str_radix` reads it.
pub open spec fn parse_number(s: Seq<u8>, base: nat) -> Option<nat> {
    let d = if s.len() > 0 && s[0] == 43 {
        s.drop_first()
    } else {
        s
    };
    if d.len() > 0 && all_digits(d, base) && digits_value(d, base) <= usize::MAX {
        Some(digits_value(d, base))
    } else {
        None
    }
}

proof fn lemma_digits_value_grows(s: Seq<u8>, base: nat, i: int)
    requires
        0 <= i <= s.len(),
        all_digits(s, base),
        base >= 1,
    ensures
        digits_value(s.subrange(0, i), base) <= digits_value(s, base),
    decreases s.len() - i,
{
    if i < s.len() {
        let t = s.drop_last();
        assert(all_digits(t, base)) by {
            assert forall|k: int| 0 <= k < t.len() implies (#[trigger] digit_value(t[k], base)) is Some by {
                assert(digit_value(s[k], base) is Some);
            }
        }
        if i < t.len() {
            lemma_digits_value_grows(t, base, i);
        }
        assert(t.subrange(0, i) =~= s.subrange(0, i));
        assert(digits_value(t, base) <= digits_value(t, base) * base) by (nonlinear_arith)
            requires base >= 1;
        assert(s.subrange(0, s.len() as int) =~= s);
    } else {
        assert(s.subrange(0, i) =~= s);
    }
}

/// Reads an unsigned number in base 10 or 16.
pub fn parse_number_bytes(s: &[u8], base: usize) -> (r: Option<usize>)
    requires
        base == 10 || base == 16,
    ensures
        r matches Some(v) ==> parse_number(s@, base as nat) == Some(v as nat),
        r is None ==> parse_number(s@, base as nat) is None,
{
    let start: usize = if s.len() > 0 && s[0] == 43 { 1 } else { 0 };
    let ghost d = if s@.len() > 0 && s@[0] == 43 { s@.drop_first() } else { s@ };
    assert(d =~= s@.subrange(start as int, s@.len() as int));
    if start == s.len() {
        return None;
    }
    let mut v: usize = 0;
    let mut i: usize = start;
    while i < s.len()
        invariant
            start <= i <= s@.len(),
            d == s@.subrange(start as int, s@.len() as int),
            d == (if s@.len() > 0 && s@[0] == 43 { s@.drop_first() } else { s@ }),
            base == 10 || base == 16,
            all_digits(d.subrange(0, i - start), base as nat),
            v == digits_value(d.subrange(0, i - start), base as nat),
        decreases s@.len() - i,
    {
        let b = s[i];
        let dv: usize = if 48 <= b && b <= 57 {
            (b - 48) as usize
        } else if 97 <= b && b <= 102 {
            (b - 87) as usize
        } else if 65 <= b && b <= 70 {
            (b - 55) as usize
        } else {
            99
        };
        let ghost k = (i - start) as int;
        assert(d[k] == b);
        if dv >= base {
            assert(digit_value(d[k], base as nat) is None);
            assert(!all_digits(d, base as nat));
            assert(parse_number(s@, base as nat) is None);
            return None;
        }
        assert(d.subrange(0, k + 1).drop_last() =~= d.subrange(0, k));
        assert(digit_value(d[k], base as nat) == Some(dv as nat));
        assert(digits_value(d.subrange(0, k + 1), base as nat) == v * base + dv);
        assert(all_digits(d.subrange(0, k + 1), base as nat)) by {
            let t = d.subrange(0, k + 1);
            assert forall|j: int| 0 <= j < t.len() implies (#[trigger] digit_value(t[j], base as nat)) is Some by {
                if j < k {
                    assert(t[j] == d.subrange(0, k)[j]);
                }
            }
        }
        let q = (usize::MAX - dv) / base;
        let ghost m = usize::MAX as int - dv as int;
        assert(q == m / (base as int));
        if v > q {
            proof {
                assert(v * base + dv > usize::MAX) by (nonlinear_arith)
                    requires
                        v > q,
                        q == m / (base as int),
                        m == usize::MAX as int - dv as int,
                        base > 0,
                        dv < base;
                if all_digits(d, base as nat) {
                    lemma_digits_value_grows(d, base as nat, k + 1);
                }
                assert(parse_number(s@, base as nat) is None);
            }
            return None;
        }
        assert(v * base + dv <= usize::MAX) by (nonlinear_arith)
            requires
                v <= q,
                q == m / (base as int),
                m == usize::MAX as int - dv as int,
                base > 0;
        v = v * base + dv;
        i = i + 1;
    }
    assert(d.subrange(0, d.len() as int) =~= d);
    Some(v)
}

proof fn lemma_find_from(s: Seq<u8>, c: u8, i: int)
    requires
        0 <= i <= s.len(),
    ensures
        i <= find_from(s, c, i) <= s.len(),
        find_from(s, c, i) < s.len() ==> s[find_from(s, c, i)] == c,
    decreases s.len() - i,
{
    if i < s.len() && s[i] != c {
        lemma_find_from(s, c, i + 1);
    }
}

/// The first index at or after `i` that holds `c` (or the length).
pub fn find_byte(s: &[u8], c: u8, i: usize) -> (r: usize)
    requires
        i <= s@.len(),
    ensures
        r == find_from(s@, c, i as int),
        i <= r <= s@.len(),
{
    let mut j: usize = i;
    while j < s.len() && s[j] != c
        invariant
            i <= j <= s@.len(),
            find_from(s@, c, i as int) == find_from(s@, c, j as int),
        decreases s@.len() - j,
    {
        j = j + 1;
    }
    j
}

/// Whether the bytes of `s` are the characters of `t`, one for one.
pub open spec fn bytes_are(s: Seq<u8>, t: Seq<char>) -> bool {
    s.len() == t.len() && forall|i: int| 0 <= i < s.len() ==> s[i] as u32 == t[i] as u32
}

/// Whether `s` names the lower-case name `t` when ASCII letters are compared
/// without regard to case.
pub open spec fn names(s: Seq<u8>, t: Seq<char>) -> bool {
    s.len() == t.len() && forall|i: int| 0 <= i < s.len() ==> lower_byte(s[i]) as u32 == t[i] as u32
}

fn bytes_match(s: &[u8], t: &[char], fold_case: bool) -> (r: bool)
    ensures
        fold_case ==> r == names(s@, t@),
        !fold_case ==> r == bytes_are(s@, t@),
{
    if s.len() != t.len() {
        return false;
    }
    let mut i: usize = 0;
    while i < s.len()
        invariant
            i <= s@.len() == t@.len(),
            fold_case ==> forall|k: int| 0 <= k < i ==> lower_byte(s@[k]) as u32 == t@[k] as u32,
            !fold_case ==> forall|k: int| 0 <= k < i ==> s@[k] as u32 == t@[k] as u32,
        decreases s@.len() - i,
    {
        let b = s[i];
        let b = if fold_case && 65 <= b && b <= 90 { b + 32 } else { b };
        if b as u32 != t[i] as u32 {
            return false;
        }
        i = i + 1;
    }
    true
}

fn trim_bytes_exec(s: &[u8]) -> (r: Vec<u8>)
    ensures
        r@ == trim_bytes(s@),
{
    let mut a: usize = 0;
    while a < s.len() && (s[a] == 9 || s[a] == 10 || s[a] == 11 || s[a] == 12 || s[a] == 13 || s[a] == 32)
        invariant
            a <= s@.len(),
            skip_ascii_ws(s@, 0) == skip_ascii_ws(s@, a as int),
        decreases s@.len() - a,
    {
        a = a + 1;
    }
    let mut b: usize = s.len();
    while b > a && (s[b - 1] == 9 || s[b - 1] == 10 || s[b - 1] == 11 || s[b - 1] == 12 || s[b - 1]
        == 13 || s[b - 1] == 32)
        invariant
            a <= b <= s@.len(),
            skip_ascii_ws(s@, 0) == a,
            back_ascii_ws(s@, a as int, s@.len() as int) == back_ascii_ws(s@, a as int, b as int),
        decreases b - a,
    {
        b = b - 1;
    }
    copy_range(s, a, b)
}

/// The head of a request read from the line that began at `start`, the scan
/// standing at `i`: its lines up to the first empty one, and the index after
/// that empty line. None while no empty line has come.
pub open spec fn head_scan(s: Seq<u8>, start: int, i: int) -> Option<(Seq<Seq<u8>>, int)>
    decreases s.len() - i,
{
    if i < 0 || i >= s.len() {
        None
    } else if s[i] == 10 {
        let l = strip_cr(s.subrange(start, i), 13u8);
        if l.len() == 0 {
            Some((Seq::empty(), i + 1))
        } else {
            match head_scan(s, i + 1, i + 1) {
                Some((ls, e)) => Some((seq![l] + ls, e)),
                None => None,
            }
        }
    } else {
        head_scan(s, start, i + 1)
    }
}

/// `r` with the lines `done` put in front.
pub open spec fn after_lines(done: Seq<Seq<u8>>, r: Option<(Seq<Seq<u8>>, int)>) -> Option<(Seq<Seq<u8>>, int)> {
    match r {
        Some((ls, e)) => Some((done + ls, e)),
        None => None,
    }
}

/// The declared body length and transfer coding after the head lines `ls`:
/// the last `Content-Length` line whose value is a number gives the length
/// (one whose value is not gives 0), the last `Transfer-Encoding` line the
/// coding. Names are matched without regard to ASCII case. Framing reads raw
/// bytes, before any text is decoded, so names and values are trimmed of
/// ASCII white space only: a line whose name is padded with other Unicode
/// white space (which the text parser does trim) declares nothing here.
pub open spec fn framing_fields(ls: Seq<Seq<u8>>) -> (nat, Seq<u8>)
    decreases ls.len(),
{
    if ls.len() == 0 {
        (0, Seq::empty())
    } else {
        let (cl, te) = framing_fields(ls.drop_last());
        let l = ls.last();
        let k = find_from(l, 58u8, 0);
        if k < l.len() {
            let key = trim_bytes(l.subrange(0, k));
            let value = trim_bytes(l.subrange(k + 1, l.len() as int));
            if names(key, "content-length"@) {
                (parse_number(value, 10).unwrap_or(0), te)
            } else if names(key, "transfer-encoding"@) {
                (cl, value)
            } else {
                (cl, te)
            }
        } else {
            (cl, te)
        }
    }
}

/// The size that a chunk-size line `s[pos..=e]` gives: its text before a
/// closing CR LF read as a hexadecimal number, and 0 where that fails.
pub open spec fn chunk_size(s: Seq<u8>, pos: int, e: int) -> nat {
    if e > pos && s[e - 1] == 13 {
        parse_number(s.subrange(pos, e - 1), 16).unwrap_or(0)
    } else {
        0
    }
}

/// A chunked body from `pos`: its data, and the index after its last line.
/// Each chunk is a size line, that many bytes, and the rest of their line;
/// a size of 0 ends the body after one more line. None if the input ends
/// first.
pub open spec fn chunks_from(s: Seq<u8>, pos: int) -> Option<(Seq<u8>, int)>
    decreases s.len() - pos via chunks_from_decreases
{
    if pos < 0 || pos > s.len() {
        None
    } else {
        let e = find_from(s, 10u8, pos);
        if e >= s.len() {
            None
        } else {
            let n = chunk_size(s, pos, e);
            if n == 0 {
                let e2 = find_from(s, 10u8, e + 1);
                if e2 >= s.len() {
                    None
                } else {
                    Some((Seq::empty(), e2 + 1))
                }
            } else if e + 1 + n > s.len() {
                None
            } else {
                let e3 = find_from(s, 10u8, e + 1 + n);
                if e3 >= s.len() {
                    None
                } else {
                    match chunks_from(s, e3 + 1) {
                        Some((b, end)) => Some((s.subrange(e + 1, e + 1 + n) + b, end)),
                        None => None,
                    }
                }
            }
        }
    }
}

#[via_fn]
proof fn chunks_from_decreases(s: Seq<u8>, pos: int) {
    if 0 <= pos <= s.len() {
        lemma_find_from(s, 10u8, pos);
        let e = find_from(s, 10u8, pos);
        if e < s.len() {
            let n = chunk_size(s, pos, e);
            if n != 0 && e + 1 + n <= s.len() {
                lemma_find_from(s, 10u8, e + 1 + n);
            }
        }
    }
}

/// `r` with the bytes `done` put in front of its data.
pub open spec fn after_data(done: Seq<u8>, r: Option<(Seq<u8>, int)>) -> Option<(Seq<u8>, int)> {
    match r {
        Some((b, e)) => Some((done + b, e)),
        None => None,
    }
}

/// The lines of a head, request line first, and its body.
pub type Framed = (Seq<Seq<u8>>, Seq<u8>, int);

/// A request on the wire: its head lines, its body, and the index after it.
/// With a declared length above 0 the body is that many bytes; else with the
/// coding `chunked` it is a chunked body; else it is empty. None if the input
/// ends before the request does.
pub open spec fn frame(s: Seq<u8>) -> Option<Framed> {
    match head_scan(s, 0, 0) {
        None => None,
        Some((ls, e)) => {
            let (cl, te) = framing_fields(ls);
            if cl > 0 {
                if e + cl <= s.len() {
                    Some((ls, s.subrange(e, e + cl), e + cl))
                } else {
                    None
                }
            } else if bytes_are(te, "chunked"@) {
                match chunks_from(s, e) {
                    Some((b, end)) => Some((ls, b, end)),
                    None => None,
                }
            } else {
                Some((ls, Seq::empty(), e))
            }
        }
    }
}

/// Lines joined by CR LF.
pub open spec fn join_crlf(ls: Seq<Seq<u8>>) -> Seq<u8>
    decreases ls.len(),
{
    if ls.len() == 0 {
        Seq::empty()
    } else if ls.len() == 1 {
        ls[0]
    } else {
        join_crlf(ls.drop_last()) + seq![13u8, 10u8] + ls.last()
    }
}

/// The text of a framed request: head lines joined by CR LF, an empty line,
/// then the body.
pub open spec fn assemble(ls: Seq<Seq<u8>>, body: Seq<u8>) -> Seq<u8> {
    join_crlf(ls) + seq![13u8, 10u8, 13u8, 10u8] + body
}

/// Reads requests off a connection and picks what answers them.
pub struct Route {}

/// Why a request could not be read.
#[derive(Debug, PartialEq, Eq, Structural, Clone, Copy)]
pub enum ReadError {
    /// The input ended before the request did.
    Incomplete,
}

/// Reads a chunked body that starts at `pos`.
pub fn read_chunked_body(s: &[u8], pos: usize) -> (r: Result<(Vec<u8>, usize), ReadError>)
    requires
        pos <= s@.len(),
    ensures
        match chunks_from(s@, pos as int) {
            Some((b, end)) => r matches Ok((v, e)) && v@ == b && e == end,
            None => r == Err::<(Vec<u8>, usize), ReadError>(ReadError::Incomplete),
        },
{
    let mut body: Vec<u8> = Vec::new();
    let mut p: usize = pos;
    let n = s.len();
    loop
        invariant
            p <= n == s@.len(),
            chunks_from(s@, pos as int) == after_data(body@, chunks_from(s@, p as int)),
        decreases n - p,
    {
        let e = find_byte(s, 10, p);
        if e >= n {
            return Err(ReadError::Incomplete);
        }
        let size: usize = if e > p && s[e - 1] == 13 {
            match parse_number_bytes(&copy_range(s, p, e - 1), 16) {
                Some(v) => v,
                None => 0,
            }
        } else {
            0
        };
        assert(size == chunk_size(s@, p as int, e as int));
        if size == 0 {
            let e2 = find_byte(s, 10, e + 1);
            if e2 >= n {
                return Err(ReadError::Incomplete);
            }
            assert(body@ + Seq::<u8>::empty() =~= body@);
            return Ok((body, e2 + 1));
        }
        if size > n - (e + 1) {
            return Err(ReadError::Incomplete);
        }
        let e3 = find_byte(s, 10, e + 1 + size);
        if e3 >= n {
            return Err(ReadError::Incomplete);
        }
        let ghost before = body@;
        extend(&mut body, &copy_range(s, e + 1, e + 1 + size));
        proof {
            let chunk = s@.subrange(e + 1, e + 1 + size);
            match chunks_from(s@, e3 + 1) {
                Some((b, end)) => {
                    assert(before + (chunk + b) =~= body@ + b);
                },
                None => {},
            }
        }
        p = e3 + 1;
    }
}

/// The declared length and coding after one more head line.
fn take_framing_line(cl: usize, te: Vec<u8>, l: &[u8]) -> (r: (usize, Vec<u8>))
    ensures
        (r.0 as nat, r.1@) == {
            let k = find_from(l@, 58u8, 0);
            if k < l@.len() {
                let key = trim_bytes(l@.subrange(0, k));
                let value = trim_bytes(l@.subrange(k + 1, l@.len() as int));
                if names(key, "content-length"@) {
                    (parse_number(value, 10).unwrap_or(0), te@)
                } else if names(key, "transfer-encoding"@) {
                    (cl as nat, value)
                } else {
                    (cl as nat, te@)
                }
            } else {
                (cl as nat, te@)
            }
        },
{
    let n = l.len();
    let k = find_byte(l, 58, 0);
    if k < n {
        let key = trim_bytes_exec(&copy_range(l, 0, k));
        let value = trim_bytes_exec(&copy_range(l, k + 1, n));
        if bytes_match(&key, &crate::text::chars_of("content-length"), true) {
            let v = match parse_number_bytes(&value, 10) {
                Some(v) => v,
                None => 0,
            };
            (v, te)
        } else if bytes_match(&key, &crate::text::chars_of("transfer-encoding"), true) {
            (cl, value)
        } else {
            (cl, te)
        }
    } else {
        (cl, te)
    }
}

/// Head lines joined by CR LF, then an empty line, then the body.
fn assemble_exec(lines: &Vec<Vec<u8>>, body: &[u8]) -> (r: Vec<u8>)
    ensures
        r@ == assemble(lines@.map_values(|l: Vec<u8>| l@), body@),
{
    let ghost ls = lines@.map_values(|l: Vec<u8>| l@);
    let mut out = join_exec(lines);
    out.push(13);
    out.push(10);
    out.push(13);
    out.push(10);
    extend(&mut out, body);
    assert(out@ =~= assemble(ls, body@));
    out
}

/// Each head line followed by CR LF.
fn lines_crlf_exec(lines: &Vec<Vec<u8>>) -> (r: Vec<u8>)
    ensures
        r@ == lines_crlf(lines@.map_values(|l: Vec<u8>| l@)),
{
    let ghost ls = lines@.map_values(|l: Vec<u8>| l@);
    let mut out: Vec<u8> = Vec::new();
    let mut i: usize = 0;
    assert(ls.subrange(0, 0) =~= Seq::<Seq<u8>>::empty());
    while i < lines.len()
        invariant
            ls == lines@.map_values(|l: Vec<u8>| l@),
            i <= ls.len(),
            out@ == lines_crlf(ls.subrange(0, i as int)),
        decreases ls.len() - i,
    {
        let ghost before = out@;
        extend(&mut out, lines[i].as_slice());
        out.push(13);
        out.push(10);
        assert(ls.subrange(0, i + 1).drop_last() =~= ls.subrange(0, i as int));
        assert(out@ =~= before + ls[i as int] + seq![13u8, 10u8]);
        i = i + 1;
    }
    assert(ls.subrange(0, ls.len() as int) =~= ls);
    out
}

/// Head lines joined by CR LF.
fn join_exec(lines: &Vec<Vec<u8>>) -> (r: Vec<u8>)
    ensures
        r@ == join_crlf(lines@.map_values(|l: Vec<u8>| l@)),
{
    let ghost ls = lines@.map_values(|l: Vec<u8>| l@);
    let mut out: Vec<u8> = Vec::new();
    let mut i: usize = 0;
    while i < lines.len()
        invariant
            ls == lines@.map_values(|l: Vec<u8>| l@),
            i <= ls.len(),
            out@ == join_crlf(ls.subrange(0, i as int)),
        decreases ls.len() - i,
    {
        let ghost before = out@;
        if i > 0 {
            out.push(13);
            out.push(10);
        }
        extend(&mut out, lines[i].as_slice());
        assert(ls.subrange(0, i + 1).drop_last() =~= ls.subrange(0, i as int));
        assert(i == 0 ==> out@ =~= ls.subrange(0, i + 1)[0]);
        assert(i > 0 ==> out@ =~= before + seq![13u8, 10u8] + ls[i as int]);
        i = i + 1;
    }
    assert(ls.subrange(0, ls.len() as int) =~= ls);
    out
}

/// Reads one request from the start of `input`: its head lines, its body,
/// and the number of bytes it took.
fn frame_parts(input: &[u8]) -> (r: Result<(Vec<Vec<u8>>, Vec<u8>, usize), ReadError>)
    ensures
        match frame(input@) {
            Some((ls, b, end)) => r matches Ok((lv, bv, e)) && lv@.map_values(|l: Vec<u8>| l@)
                == ls && bv@ == b && e == end,
            None => r is Err,
        },
{
    let n = input.len();
    let mut lines: Vec<Vec<u8>> = Vec::new();
    let mut cl: usize = 0;
    let mut te: Vec<u8> = Vec::new();
    let mut start: usize = 0;
    let mut i: usize = 0;
    let mut head_end: usize = 0;
    let mut found = false;
    while i < n
        invariant
            n == input@.len(),
            start <= i <= n,
            found ==> i == n,
            !found ==> head_scan(input@, 0, 0) == after_lines(
                lines@.map_values(|l: Vec<u8>| l@),
                head_scan(input@, start as int, i as int),
            ),
            found ==> head_scan(input@, 0, 0) == Some(
                (lines@.map_values(|l: Vec<u8>| l@), head_end as int),
            ),
            found ==> head_end <= n,
            (cl as nat, te@) == framing_fields(lines@.map_values(|l: Vec<u8>| l@)),
        decreases n - i,
    {
        if input[i] == 10 {
            let mut end = i;
            if end > start && input[end - 1] == 13 {
                end = end - 1;
            }
            let line = copy_range(input, start, end);
            assert(line@ == strip_cr(input@.subrange(start as int, i as int), 13u8));
            let ghost done = lines@.map_values(|l: Vec<u8>| l@);
            if line.len() == 0 {
                assert(done + Seq::<Seq<u8>>::empty() =~= done);
                head_end = i + 1;
                found = true;
                i = n;
            } else {
                let (c, t) = take_framing_line(cl, te, &line);
                cl = c;
                te = t;
                lines.push(line);
                proof {
                    let nd = lines@.map_values(|l: Vec<u8>| l@);
                    assert(nd =~= done.push(line@));
                    assert(nd.drop_last() =~= done);
                    match head_scan(input@, (i + 1) as int, (i + 1) as int) {
                        Some((ls, e)) => {
                            assert(done + (seq![line@] + ls) =~= nd + ls);
                        },
                        None => {},
                    }
                }
                start = i + 1;
            }
        }
        if !found {
            i = i + 1;
        }
    }
    if !found {
        assert(head_scan(input@, start as int, i as int) is None);
        return Err(ReadError::Incomplete);
    }
    let ghost ls = lines@.map_values(|l: Vec<u8>| l@);
    let body: Vec<u8> = if cl > 0 {
        if cl > n - head_end {
            return Err(ReadError::Incomplete);
        }
        let b = copy_range(input, head_end, head_end + cl);
        return Ok((lines, b, head_end + cl));
    } else if bytes_match(&te, &crate::text::chars_of("chunked"), false) {
        match read_chunked_body(input, head_end) {
            Ok((b, end)) => {
                return Ok((lines, b, end));
            },
            Err(e) => {
                return Err(e);
            },
        }
    } else {
        Vec::new()
    };
    Ok((lines, body, head_end))
}

impl Route {
    /// Reads one request from the start of `input`: the head up to the first
    /// empty line, then the body that the head declares. Gives the request's
    /// text (head lines joined by CR LF, an empty line, the body) and the
    /// number of bytes it took; fails if the input ends before the request.
    pub fn read_full_request(input: &[u8]) -> (r: Result<(Vec<u8>, usize), ReadError>)
        ensures
            match frame(input@) {
                Some((ls, b, end)) => r matches Ok((v, e)) && v@ == assemble(ls, b) && e == end,
                None => r == Err::<(Vec<u8>, usize), ReadError>(ReadError::Incomplete),
            },
    {
        match frame_parts(input) {
            Ok((lines, body, end)) => Ok((assemble_exec(&lines, &body), end)),
            Err(_) => Err(ReadError::Incomplete),
        }
    }
}

/// Each line followed by CR LF.
pub open spec fn lines_crlf(ls: Seq<Seq<u8>>) -> Seq<u8>
    decreases ls.len(),
{
    if ls.len() == 0 {
        Seq::empty()
    } else {
        lines_crlf(ls.drop_last()) + ls.last() + seq![13u8, 10u8]
    }
}

/// A head line that frames cleanly: not empty, and without a line feed.
pub open spec fn clean_line(l: Seq<u8>) -> bool {
    l.len() > 0 && forall|k: int| 0 <= k < l.len() ==> l[k] != 10
}

proof fn lemma_join_crlf(ls: Seq<Seq<u8>>)
    requires
        ls.len() > 0,
    ensures
        join_crlf(ls) + seq![13u8, 10u8] == lines_crlf(ls),
    decreases ls.len(),
{
    if ls.len() == 1 {
        assert(ls.drop_last() =~= Seq::<Seq<u8>>::empty());
        assert(lines_crlf(ls.drop_last()) =~= Seq::<u8>::empty());
        assert(join_crlf(ls) + seq![13u8, 10u8] =~= lines_crlf(ls));
    } else {
        lemma_join_crlf(ls.drop_last());
        assert(join_crlf(ls) + seq![13u8, 10u8] =~= lines_crlf(ls));
    }
}

proof fn lemma_lines_crlf_concat(a: Seq<Seq<u8>>, b: Seq<Seq<u8>>)
    ensures
        lines_crlf(a + b) == lines_crlf(a) + lines_crlf(b),
    decreases b.len(),
{
    if b.len() == 0 {
        assert(a + b =~= a);
        assert(lines_crlf(a) + lines_crlf(b) =~= lines_crlf(a));
    } else {
        lemma_lines_crlf_concat(a, b.drop_last());
        assert((a + b).drop_last() =~= a + b.drop_last());
        assert(lines_crlf(a + b) =~= lines_crlf(a) + lines_crlf(b));
    }
}

proof fn lemma_scan_in_line(s: Seq<u8>, start: int, i: int, j: int)
    requires
        0 <= i <= j <= s.len(),
        forall|k: int| i <= k < j ==> s[k] != 10,
    ensures
        head_scan(s, start, i) == head_scan(s, start, j),
    decreases j - i,
{
    if i < j {
        lemma_scan_in_line(s, start, i + 1, j);
    }
}

proof fn lemma_head_lines(w: Seq<u8>, ls: Seq<Seq<u8>>, k: int)
    requires
        0 <= k <= ls.len(),
        forall|m: int| 0 <= m < ls.len() ==> clean_line(#[trigger] ls[m]),
        lines_crlf(ls) + seq![13u8, 10u8] == w.subrange(0, lines_crlf(ls).len() + 2int),
        lines_crlf(ls).len() + 2 <= w.len(),
    ensures
        head_scan(w, lines_crlf(ls.subrange(0, k)).len() as int, lines_crlf(ls.subrange(0, k)).len() as int)
            == Some((ls.subrange(k, ls.len() as int), lines_crlf(ls).len() + 2int)),
    decreases ls.len() - k,
{
    let p = lines_crlf(ls.subrange(0, k)).len() as int;
    let q = lines_crlf(ls).len() as int;
    let pre = lines_crlf(ls) + seq![13u8, 10u8];
    assert forall|m: int| 0 <= m < q + 2 implies w[m] == pre[m] by {
        assert(w.subrange(0, q + 2)[m] == w[m]);
    }
    lemma_lines_crlf_concat(ls.subrange(0, k), ls.subrange(k, ls.len() as int));
    assert(ls.subrange(0, k) + ls.subrange(k, ls.len() as int) =~= ls);
    if k == ls.len() {
        assert(p == q);
        assert(w[q] == pre[q]);
        assert(w[q + 1] == pre[q + 1]);
        assert(w[q] == 13);
        assert(w[q + 1] == 10);
        assert(strip_cr(w.subrange(q, q + 1), 13u8) =~= Seq::<u8>::empty());
        assert(head_scan(w, q, q + 1) == Some((Seq::<Seq<u8>>::empty(), q + 2)));
        assert(ls.subrange(k, ls.len() as int) =~= Seq::<Seq<u8>>::empty());
    } else {
        let l = ls[k];
        let rest = ls.subrange(k + 1, ls.len() as int);
        lemma_lines_crlf_concat(seq![l], rest);
        assert(seq![l] + rest =~= ls.subrange(k, ls.len() as int));
        assert(seq![l].drop_last() =~= Seq::<Seq<u8>>::empty());
        assert(lines_crlf(seq![l].drop_last()) =~= Seq::<u8>::empty());
        assert(lines_crlf(seq![l]) =~= l + seq![13u8, 10u8]);
        assert(ls.subrange(0, k + 1) =~= ls.subrange(0, k) + seq![l]);
        lemma_lines_crlf_concat(ls.subrange(0, k), seq![l]);
        let e = p + l.len();
        assert(clean_line(ls[k]));
        assert(lines_crlf(ls) =~= lines_crlf(ls.subrange(0, k)) + l + seq![13u8, 10u8] + lines_crlf(rest));
        assert forall|m: int| p <= m < e implies w[m] != 10 by {
            assert(w[m] == pre[m]);
            assert(pre[m] == l[m - p]);
        }
        assert(w[e] == pre[e]);
        assert(w[e + 1] == pre[e + 1]);
        assert(w[e] == 13);
        assert(w[e + 1] == 10);
        lemma_scan_in_line(w, p, p, e + 1);
        assert(w.subrange(p, e + 1) =~= l + seq![13u8]);
        assert(strip_cr(w.subrange(p, e + 1), 13u8) =~= l);
        lemma_head_lines(w, ls, k + 1);
        assert(seq![l] + rest =~= ls.subrange(k, ls.len() as int));
    }
}

/// Round trip of a request with a declared length: a head of clean lines
/// whose `Content-Length` gives the body's length, followed on the wire by
/// that body, frames back into the same head lines and exactly the same body
/// bytes, and the whole input is taken. (An empty body must not come with a
/// `chunked` coding, which would then be read instead.)
pub proof fn fixed_length_round_trip(ls: Seq<Seq<u8>>, body: Seq<u8>)
    requires
        ls.len() > 0,
        forall|m: int| 0 <= m < ls.len() ==> clean_line(#[trigger] ls[m]),
        framing_fields(ls).0 == body.len(),
        body.len() == 0 ==> !bytes_are(framing_fields(ls).1, "chunked"@),
    ensures
        frame(assemble(ls, body)) == Some((ls, body, assemble(ls, body).len() as int)),
{
    let w = assemble(ls, body);
    lemma_join_crlf(ls);
    let q = lines_crlf(ls).len() as int;
    assert(w =~= lines_crlf(ls) + seq![13u8, 10u8] + body);
    assert(lines_crlf(ls) + seq![13u8, 10u8] =~= w.subrange(0, q + 2));
    lemma_head_lines(w, ls, 0);
    assert(ls.subrange(0, 0) =~= Seq::<Seq<u8>>::empty());
    assert(lines_crlf(ls.subrange(0, 0)).len() == 0);
    assert(ls.subrange(0, ls.len() as int) =~= ls);
    assert(w.subrange(q + 2, q + 2 + body.len()) =~= body);
}

/// The text that `String::from_utf8_lossy` makes of some bytes.
pub uninterp spec fn lossy_text(b: Seq<u8>) -> Seq<char>;

/// Relies on `String::from_utf8_lossy`: the bytes as text, each invalid
/// sequence replaced; the result depends on the bytes alone, and valid UTF-8
/// comes back as the same string; ASCII bytes are their own characters.
#[verifier::external_body]
fn lossy_string(b: &[u8]) -> (r: String)
    ensures
        r@ == lossy_text(b@),
        valid_utf8(b@) ==> encode_utf8(r@) == b@,
        all_ascii(b@) ==> ascii_text(r@, b@),
{
    String::from_utf8_lossy(b).into_owned()
}

/// What answers a request.
#[derive(Debug, PartialEq, Eq, Structural, Clone, Copy)]
pub enum Strategy {
    /// Serve a file or a directory listing from the root.
    StaticResource,
    /// Answer 404.
    NotFound,
}

/// Whether `s` ends with `t`.
pub open spec fn ends_with(s: Seq<char>, t: Seq<char>) -> bool {
    s.len() >= t.len() && s.subrange(s.len() - t.len(), s.len() as int) == t
}

/// Every request that names a path goes to the resolver; one without a
/// path (a malformed request line) is not found.
pub open spec fn strategy_for(path: Seq<char>) -> Strategy {
    if path.len() > 0 {
        Strategy::StaticResource
    } else {
        Strategy::NotFound
    }
}

/// Whether `s` ends with `t`.
pub fn ends_with_chars(s: &[char], t: &[char]) -> (r: bool)
    ensures
        r == ends_with(s@, t@),
{
    if s.len() < t.len() {
        return false;
    }
    chars_eq(&copy_range(s, s.len() - t.len(), s.len()), t)
}

/// The request decoded from framed head lines `ls` and body `b`: the head
/// (each line followed by CR LF) parsed as text, then the body's text appended to what the head gathered.
pub open spec fn decoded(ls: Seq<Seq<u8>>, b: Seq<u8>) -> RequestState {
    let st = parse_request(lossy_text(lines_crlf(ls)));
    (st.0, st.1, st.2, st.3, append_body(st.4, lossy_text(b)))
}

fn append_text(b: &String, t: &String) -> (r: String)
    ensures
        r@ == append_body(b@, t@),
{
    let mut out = chars_of(b.as_str());
    let tc = chars_of(t.as_str());
    if tc.len() == 0 {
        return string_of(&out);
    }
    if out.len() == 0 {
        return string_of(&tc);
    }
    out.push('\n');
    extend(&mut out, &tc);
    string_of(&out)
}

/// The lines of `s[start..]` when the input has ended, the line now being
/// read having begun at `start` and the scan standing at `i`: a line ends at
/// a line feed, which it loses together with one carriage return before it;
/// a non-empty rest after the last line feed is the last line.
pub open spec fn lines_to_end(s: Seq<u8>, start: int, i: int) -> Seq<Seq<u8>>
    decreases s.len() - i,
{
    if i < 0 || i >= s.len() {
        if 0 <= start < s.len() {
            seq![s.subrange(start, s.len() as int)]
        } else {
            Seq::empty()
        }
    } else if s[i] == 10 {
        seq![strip_cr(s.subrange(start, i), 13u8)] + lines_to_end(s, i + 1, i + 1)
    } else {
        lines_to_end(s, start, i + 1)
    }
}

/// A request on an input that has ended: as `frame` where that finds one;
/// where the input ended before an empty line, its lines are the head and
/// the body is empty, unless the head declares a length, whose bytes are
/// then missing.
pub open spec fn frame_at_end(s: Seq<u8>) -> Option<Framed> {
    match frame(s) {
        Some(f) => Some(f),
        None => if head_scan(s, 0, 0) is None {
            let ls = lines_to_end(s, 0, 0);
            if framing_fields(ls).0 > 0 {
                None
            } else {
                Some((ls, Seq::empty(), s.len() as int))
            }
        } else {
            None
        },
    }
}

/// The lines of an input that ended without an empty line, and whether it
/// did; with them the declared length and coding.
fn lines_without_blank(input: &[u8]) -> (r: Option<(Vec<Vec<u8>>, usize)>)
    ensures
        match r {
            Some((lv, cl)) => head_scan(input@, 0, 0) is None && lv@.map_values(|l: Vec<u8>| l@)
                == lines_to_end(input@, 0, 0) && cl as nat == framing_fields(
                lines_to_end(input@, 0, 0),
            ).0,
            None => head_scan(input@, 0, 0) is Some,
        },
{
    let n = input.len();
    let mut lines: Vec<Vec<u8>> = Vec::new();
    let mut cl: usize = 0;
    let mut te: Vec<u8> = Vec::new();
    let mut start: usize = 0;
    let mut i: usize = 0;
    while i < n
        invariant
            n == input@.len(),
            start <= i <= n,
            head_scan(input@, 0, 0) == after_lines(
                lines@.map_values(|l: Vec<u8>| l@),
                head_scan(input@, start as int, i as int),
            ),
            lines_to_end(input@, 0, 0) == lines@.map_values(|l: Vec<u8>| l@) + lines_to_end(
                input@,
                start as int,
                i as int,
            ),
            (cl as nat, te@) == framing_fields(lines@.map_values(|l: Vec<u8>| l@)),
        decreases n - i,
    {
        if input[i] == 10 {
            let mut end = i;
            if end > start && input[end - 1] == 13 {
                end = end - 1;
            }
            let line = copy_range(input, start, end);
            assert(line@ == strip_cr(input@.subrange(start as int, i as int), 13u8));
            if line.len() == 0 {
                return None;
            }
            let ghost done = lines@.map_values(|l: Vec<u8>| l@);
            let (c, t) = take_framing_line(cl, te, &line);
            cl = c;
            te = t;
            lines.push(line);
            proof {
                let nd = lines@.map_values(|l: Vec<u8>| l@);
                assert(nd =~= done.push(line@));
                assert(nd.drop_last() =~= done);
                let rest = lines_to_end(input@, (i + 1) as int, (i + 1) as int);
                assert(done + (seq![line@] + rest) =~= nd + rest);
                match head_scan(input@, (i + 1) as int, (i + 1) as int) {
                    Some((ls, e)) => {
                        assert(done + (seq![line@] + ls) =~= nd + ls);
                    },
                    None => {},
                }
            }
            start = i + 1;
        }
        i = i + 1;
    }
    let ghost done = lines@.map_values(|l: Vec<u8>| l@);
    if start < n {
        let line = copy_range(input, start, n);
        let (c, t) = take_framing_line(cl, te, &line);
        cl = c;
        lines.push(line);
        proof {
            let nd = lines@.map_values(|l: Vec<u8>| l@);
            assert(nd =~= done.push(line@));
            assert(nd.drop_last() =~= done);
        }
    }
    assert(lines@.map_values(|l: Vec<u8>| l@) =~= lines_to_end(input@, 0, 0));
    Some((lines, cl))
}

/// Every byte is ASCII.
pub open spec fn all_ascii(b: Seq<u8>) -> bool {
    forall|i: int| 0 <= i < b.len() ==> b[i] < 128
}

/// The characters `t` have the codes of the bytes `b`, one for one.
pub open spec fn ascii_text(t: Seq<char>, b: Seq<u8>) -> bool {
    t.len() == b.len() && forall|i: int| 0 <= i < b.len() ==> t[i] as u32 == b[i] as u32
}

/// A well-formed head: a request line and header lines, each clean and
/// ASCII, every header line holding a colon.
pub open spec fn well_formed_head(ls: Seq<Seq<u8>>) -> bool {
    &&& ls.len() > 0
    &&& forall|k: int| 0 <= k < ls.len() ==> clean_line(#[trigger] ls[k]) && all_ascii(ls[k])
    &&& forall|k: int| 1 <= k < ls.len() ==> find_from(#[trigger] ls[k], 58u8, 0) < ls[k].len()
}

proof fn lemma_find_ascii(t: Seq<char>, b: Seq<u8>, c: char, d: u8, i: int)
    requires
        ascii_text(t, b),
        c as u32 == d as u32,
        0 <= i <= b.len(),
    ensures
        find_from(t, c, i) == find_from(b, d, i),
    decreases b.len() - i,
{
    if i < b.len() {
        assert(t[i] as u32 == b[i] as u32);
        if b[i] != d {
            assert(t[i] != c);
            lemma_find_ascii(t, b, c, d, i + 1);
        } else {
            vstd::utf8::char_u32_cast(t[i], d as u32);
            vstd::utf8::char_u32_cast(c, d as u32);
        }
    }
}

proof fn lemma_scan_text_in_line(s: Seq<char>, start: int, i: int, j: int)
    requires
        0 <= i <= j <= s.len(),
        forall|k: int| i <= k < j ==> s[k] != '\n',
    ensures
        head_scan_text(s, start, i) == head_scan_text(s, start, j),
    decreases j - i,
{
    if i < j {
        lemma_scan_text_in_line(s, start, i + 1, j);
    }
}

#[verifier::rlimit(60)]
proof fn lemma_head_text(ls: Seq<Seq<u8>>, t: Seq<char>, k: int)
    requires
        0 <= k <= ls.len(),
        forall|m: int| 0 <= m < ls.len() ==> clean_line(#[trigger] ls[m]),
        ascii_text(t, lines_crlf(ls)),
    ensures
        ({
            let p = lines_crlf(ls.subrange(0, k)).len() as int;
            let r = head_scan_text(t, p, p);
            &&& r.1 is None
            &&& r.0.len() == ls.len() - k
            &&& forall|j: int| 0 <= j < ls.len() - k ==> ascii_text(#[trigger] r.0[j], ls[k + j])
        }),
    decreases ls.len() - k,
{
    let w = lines_crlf(ls);
    let p = lines_crlf(ls.subrange(0, k)).len() as int;
    lemma_lines_crlf_concat(ls.subrange(0, k), ls.subrange(k, ls.len() as int));
    assert(ls.subrange(0, k) + ls.subrange(k, ls.len() as int) =~= ls);
    if k == ls.len() {
        assert(ls.subrange(k, ls.len() as int) =~= Seq::<Seq<u8>>::empty());
        assert(p == t.len());
    } else {
        let l = ls[k];
        let rest = ls.subrange(k + 1, ls.len() as int);
        lemma_lines_crlf_concat(seq![l], rest);
        assert(seq![l] + rest =~= ls.subrange(k, ls.len() as int));
        assert(seq![l].drop_last() =~= Seq::<Seq<u8>>::empty());
        assert(lines_crlf(seq![l].drop_last()) =~= Seq::<u8>::empty());
        assert(lines_crlf(seq![l]) =~= l + seq![13u8, 10u8]);
        assert(ls.subrange(0, k + 1) =~= ls.subrange(0, k) + seq![l]);
        lemma_lines_crlf_concat(ls.subrange(0, k), seq![l]);
        let e = p + l.len();
        assert(clean_line(ls[k]));
        assert(w =~= lines_crlf(ls.subrange(0, k)) + l + seq![13u8, 10u8] + lines_crlf(rest));
        assert forall|m: int| p <= m < e implies t[m] != '\n' by {
            assert(w[m] == l[m - p]);
            assert(t[m] as u32 == w[m] as u32);
        }
        assert(w[e] == 13u8);
        assert(w[e + 1] == 10u8);
        assert(t[e] as u32 == 13);
        assert(t[e + 1] as u32 == 10);
        vstd::utf8::char_u32_cast(t[e], 13u32);
        vstd::utf8::char_u32_cast('\r', 13u32);
        vstd::utf8::char_u32_cast(t[e + 1], 10u32);
        vstd::utf8::char_u32_cast('\n', 10u32);
        assert(t[e] == '\r');
        assert(t[e + 1] == '\n');
        lemma_scan_text_in_line(t, p, p, e + 1);
        let lt = t.subrange(p, e);
        assert(strip_cr(t.subrange(p, e + 1), '\r') =~= lt);
        assert(ascii_text(lt, l)) by {
            assert forall|j: int| 0 <= j < l.len() implies lt[j] as u32 == l[j] as u32 by {
                assert(w[p + j] == l[j]);
                assert(t[p + j] as u32 == w[p + j] as u32);
            }
        }
        lemma_head_text(ls, t, k + 1);
        let r2 = head_scan_text(t, e + 2, e + 2);
        let r = head_scan_text(t, p, p);
        assert(r == (seq![lt] + r2.0, r2.1));
        assert forall|j: int| 0 <= j < ls.len() - k implies ascii_text(#[trigger] r.0[j], ls[k + j]) by {
            if j > 0 {
                assert(r.0[j] == r2.0[j - 1]);
                assert(ascii_text(r2.0[j - 1], ls[k + 1 + (j - 1)]));
            }
        }
    }
}

proof fn lemma_no_body_lines(h: Seq<Seq<char>>)
    requires
        forall|k: int| 1 <= k < h.len() ==> has_colon(#[trigger] h[k]),
    ensures
        parse_lines(h).4 == Seq::<char>::empty(),
    decreases h.len(),
{
    if h.len() > 0 {
        let d = h.drop_last();
        assert forall|k: int| 1 <= k < d.len() implies has_colon(#[trigger] d[k]) by {
            assert(d[k] == h[k]);
        }
        lemma_no_body_lines(d);
        if h.len() - 1 >= 1 {
            assert(has_colon(h[h.len() - 1]));
        }
    }
}

proof fn lemma_lines_crlf_ascii(ls: Seq<Seq<u8>>)
    requires
        forall|k: int| 0 <= k < ls.len() ==> all_ascii(#[trigger] ls[k]),
    ensures
        all_ascii(lines_crlf(ls)),
    decreases ls.len(),
{
    if ls.len() > 0 {
        let d = ls.drop_last();
        assert forall|k: int| 0 <= k < d.len() implies all_ascii(#[trigger] d[k]) by {
            assert(d[k] == ls[k]);
        }
        lemma_lines_crlf_ascii(d);
        let a = lines_crlf(d);
        let l = ls.last();
        assert(all_ascii(l));
        let w = lines_crlf(ls);
        assert(w == a + l + seq![13u8, 10u8]);
        assert forall|i: int| 0 <= i < w.len() implies w[i] < 128 by {
            if i < a.len() {
                assert(w[i] == a[i]);
            } else if i < a.len() + l.len() {
                assert(w[i] == l[i - a.len()]);
            }
        }
    }
}

/// A well-formed head adds nothing to the body: read as text, each line
/// followed by CR LF, a head of clean ASCII lines in which every line after
/// the request line holds a colon parses with an empty body. Together with
/// `fixed_length_round_trip`, a request decoded from the wire then carries
/// exactly the body that was sent.
pub proof fn well_formed_head_adds_no_body(ls: Seq<Seq<u8>>, t: Seq<char>)
    requires
        well_formed_head(ls),
        ascii_text(t, lines_crlf(ls)),
    ensures
        parse_request(t).4 == Seq::<char>::empty(),
{
    lemma_head_text(ls, t, 0);
    assert(ls.subrange(0, 0) =~= Seq::<Seq<u8>>::empty());
    assert(lines_crlf(ls.subrange(0, 0)).len() == 0);
    let h = head_scan_text(t, 0, 0).0;
    assert forall|k: int| 1 <= k < h.len() implies has_colon(#[trigger] h[k]) by {
        assert(ascii_text(h[k], ls[0 + k]));
        assert(find_from(ls[k], 58u8, 0) < ls[k].len());
        lemma_find_ascii(h[k], ls[k], ':', 58u8, 0);
    }
    lemma_no_body_lines(h);
}

impl Route {
    /// Reads one request from the start of `input` and decodes it: the head
    /// lines are parsed as text, and the body follows, its bytes as they came
    /// (read as UTF-8, invalid sequences replaced), after any lines that the
    /// head gathered into the body.
    pub fn read_request(input: &[u8]) -> (r: Result<(HttpRequest, usize), ReadError>)
        ensures
            match frame(input@) {
                Some((ls, b, end)) => r matches Ok((req, e)) && e == end && req.headers.wf()
                    && req@ == decoded(ls, b) && (well_formed_head(ls) && valid_utf8(b)
                    ==> encode_utf8(req.body@) == b),
                None => r == Err::<(HttpRequest, usize), ReadError>(ReadError::Incomplete),
            },
    {
        match frame_parts(input) {
            Ok((lines, body, end)) => {
                let head = lines_crlf_exec(&lines);
                let head_text = lossy_string(head.as_slice());
                let mut req = HttpRequest::from(head_text);
                let text = lossy_string(body.as_slice());
                let joined = append_text(&req.body, &text);
                proof {
                    let ls = lines@.map_values(|l: Vec<u8>| l@);
                    if text@.len() == 0 {
                        assert(text@ =~= Seq::<char>::empty());
                    }
                    if well_formed_head(ls) {
                        assert forall|k: int| 0 <= k < ls.len() implies all_ascii(#[trigger] ls[k]) by {
                            assert(clean_line(ls[k]) && all_ascii(ls[k]));
                        }
                        lemma_lines_crlf_ascii(ls);
                        well_formed_head_adds_no_body(ls, lossy_text(head@));
                        assert(joined@ =~= text@);
                    }
                }
                req.body = joined;
                Ok((req, end))
            },
            Err(_) => Err(ReadError::Incomplete),
        }
    }

    /// Decodes the request on an input that has ended, as
    /// [`Route::read_request`] does; an input that ended before an empty line
    /// is a request of its lines alone, unless they declare a body length.
    pub fn read_request_at_end(input: &[u8]) -> (r: Result<(HttpRequest, usize), ReadError>)
        ensures
            match frame_at_end(input@) {
                Some((ls, b, end)) => r matches Ok((req, e)) && e == end && req.headers.wf()
                    && req@ == decoded(ls, b),
                None => r == Err::<(HttpRequest, usize), ReadError>(ReadError::Incomplete),
            },
    {
        match Route::read_request(input) {
            Ok(found) => Ok(found),
            Err(e) => match lines_without_blank(input) {
                None => Err(e),
                Some((lines, cl)) => {
                    if cl > 0 {
                        return Err(ReadError::Incomplete);
                    }
                    let head = lines_crlf_exec(&lines);
                    let mut req = HttpRequest::from(lossy_string(head.as_slice()));
                    let empty: Vec<u8> = Vec::new();
                    let text = lossy_string(empty.as_slice());
                    assert(empty@ =~= Seq::<u8>::empty());
                    let joined = append_text(&req.body, &text);
                    req.body = joined;
                    Ok((req, input.len()))
                },
            },
        }
    }

    /// The strategy for a request path.
    pub fn select(path: &str) -> (r: Strategy)
        ensures
            r == strategy_for(path@),
    {
        if !path.is_empty() {
            Strategy::StaticResource
        } else {
            Strategy::NotFound
        }
    }
}

} // verus!
