//! The request parser: raw bytes to a structured `Request`.
//!
//! The input is split on CRLF. The first line is the request line:
//! method token (case-insensitive `get`/`post`) and verbatim URL. The
//! following lines, up to the first empty line, are headers; a header
//! that does not parse is dropped and the request goes on. Everything
//! after the empty line is the body, verbatim. Only a bad request line
//! fails the whole parse.
use vstd::prelude::*;

use crate::bytes::{copy_range, eq_ignore_case, is_ws, lower_byte};
use crate::http::{
    body_view, headers_view, Header, HeaderV, Method, Request, RequestLine, RequestLineV, RequestV,
};

verus! {

/// Why a whole request was rejected: its first line had no valid
/// method token or no URL token.
#[derive(Clone, Copy, Debug, PartialEq, Eq, Structural)]
pub enum ParseError {
    BadRequestLine,
}

/// The index where the line starting at `i` ends: the first position
/// at or after `i` where a CRLF pair begins, or the end of the input.
pub open spec fn line_end(s: Seq<u8>, i: int) -> int
    decreases s.len() - i,
{
    if i + 2 > s.len() {
        s.len() as int
    } else if s[i] == 13 && s[i + 1] == 10 {
        i
    } else {
        line_end(s, i + 1)
    }
}

pub proof fn lemma_line_end(s: Seq<u8>, i: int)
    requires
        0 <= i <= s.len(),
    ensures
        i <= line_end(s, i) <= s.len(),
        line_end(s, i) < s.len() ==> line_end(s, i) + 2 <= s.len(),
    decreases s.len() - i,
{
    if i + 2 > s.len() {
    } else if s[i] == 13 && s[i + 1] == 10 {
    } else {
        lemma_line_end(s, i + 1);
    }
}

/// The first index in `[i, end)` holding a byte that is not ASCII
/// whitespace, or `end`.
pub open spec fn skip_ws(s: Seq<u8>, i: int, end: int) -> int
    decreases end - i,
{
    if i >= end {
        end
    } else if is_ws(s[i]) {
        skip_ws(s, i + 1, end)
    } else {
        i
    }
}

/// The first index in `[i, end)` holding ASCII whitespace, or `end`:
/// the end of the token starting at `i`.
pub open spec fn token_end(s: Seq<u8>, i: int, end: int) -> int
    decreases end - i,
{
    if i >= end {
        end
    } else if is_ws(s[i]) {
        i
    } else {
        token_end(s, i + 1, end)
    }
}

/// The first index in `[i, end)` holding a colon, or `end`.
pub open spec fn colon_pos(s: Seq<u8>, i: int, end: int) -> int
    decreases end - i,
{
    if i >= end {
        end
    } else if s[i] == 58 {
        i
    } else {
        colon_pos(s, i + 1, end)
    }
}

/// The end of `[lo, hi)` after trailing ASCII whitespace is dropped.
pub open spec fn trim_hi(s: Seq<u8>, lo: int, hi: int) -> int
    decreases hi - lo,
{
    if hi <= lo {
        lo
    } else if is_ws(s[hi - 1]) {
        trim_hi(s, lo, hi - 1)
    } else {
        hi
    }
}

/// The bytes of `get` in lower case.
pub open spec fn get_token() -> Seq<u8> {
    seq![103u8, 101u8, 116u8]
}

/// The bytes of `post` in lower case.
pub open spec fn post_token() -> Seq<u8> {
    seq![112u8, 111u8, 115u8, 116u8]
}

/// The bytes of `user-agent` in lower case.
pub open spec fn user_agent_name() -> Seq<u8> {
    seq![117u8, 115u8, 101u8, 114u8, 45u8, 97u8, 103u8, 101u8, 110u8, 116u8]
}

/// The bytes of `accept-encoding` in lower case.
pub open spec fn accept_encoding_name() -> Seq<u8> {
    seq![97u8, 99u8, 99u8, 101u8, 112u8, 116u8, 45u8, 101u8, 110u8, 99u8, 111u8, 100u8, 105u8,
        110u8, 103u8]
}

/// The bytes of `gzip`: the only encoding value accepted.
pub open spec fn gzip_token() -> Seq<u8> {
    seq![103u8, 122u8, 105u8, 112u8]
}

/// The method a token names, matched without regard to ASCII case, if
/// it names one at all.
pub open spec fn method_of(tok: Seq<u8>) -> Option<Method> {
    if eq_ignore_case(tok, get_token()) {
        Some(Method::Get)
    } else if eq_ignore_case(tok, post_token()) {
        Some(Method::Post)
    } else {
        None
    }
}

/// The request line held in `[lo, hi)` of `s`: first whitespace-split
/// token is the method, second is the verbatim URL; anything after the
/// URL token (such as the protocol version) is ignored.
pub open spec fn spec_parse_request_line(s: Seq<u8>, lo: int, hi: int) -> Option<RequestLineV> {
    let m0 = skip_ws(s, lo, hi);
    let m1 = token_end(s, m0, hi);
    let u0 = skip_ws(s, m1, hi);
    let u1 = token_end(s, u0, hi);
    if m1 <= m0 {
        None
    } else {
        match method_of(s.subrange(m0, m1)) {
            None => None,
            Some(m) => if u1 <= u0 {
                None
            } else {
                Some(RequestLineV { method: m, url: s.subrange(u0, u1) })
            },
        }
    }
}

/// The header held in `[lo, hi)` of `s`: the part before the first
/// colon is the name (trimmed, case-insensitive), the part after it
/// the value (trimmed). Only `user-agent` and `accept-encoding` with
/// the exact value `gzip` are recognized; anything else is `None` and
/// the header is dropped.
pub open spec fn spec_parse_header(s: Seq<u8>, lo: int, hi: int) -> Option<HeaderV> {
    let c = colon_pos(s, lo, hi);
    if c >= hi {
        None
    } else {
        let n0 = skip_ws(s, lo, c);
        let n1 = trim_hi(s, n0, c);
        let v0 = skip_ws(s, c + 1, hi);
        let v1 = trim_hi(s, v0, hi);
        if eq_ignore_case(s.subrange(n0, n1), user_agent_name()) {
            Some(HeaderV::UserAgent(s.subrange(v0, v1)))
        } else if eq_ignore_case(s.subrange(n0, n1), accept_encoding_name()) && s.subrange(v0, v1)
            == gzip_token() {
            Some(HeaderV::AcceptEncoding)
        } else {
            None
        }
    }
}

/// The headers and body of `s` from index `i` on: lines up to the
/// first empty line are headers, recognized ones kept in order; the
/// bytes after the empty line are the body, `None` when there are
/// none.
pub open spec fn spec_parse_rest(s: Seq<u8>, i: int) -> (Seq<HeaderV>, Option<Seq<u8>>)
    decreases s.len() - i,
    when 0 <= i
    via spec_parse_rest_dec
{
    if i >= s.len() {
        (Seq::empty(), None)
    } else {
        let e = line_end(s, i);
        if e == i {
            if i + 2 >= s.len() {
                (Seq::empty(), None)
            } else {
                (Seq::empty(), Some(s.subrange(i + 2, s.len() as int)))
            }
        } else {
            let nx = if e >= s.len() {
                s.len() as int
            } else {
                e + 2
            };
            let (hs, b) = spec_parse_rest(s, nx);
            match spec_parse_header(s, i, e) {
                Some(h) => (seq![h] + hs, b),
                None => (hs, b),
            }
        }
    }
}

#[via_fn]
proof fn spec_parse_rest_dec(s: Seq<u8>, i: int) {
    if 0 <= i < s.len() {
        lemma_line_end(s, i);
    }
}

/// The request held in `s`, or `None` when its first line holds no
/// valid method or no URL.
pub open spec fn spec_parse(s: Seq<u8>) -> Option<RequestV> {
    let e = line_end(s, 0);
    match spec_parse_request_line(s, 0, e) {
        None => None,
        Some(line) => {
            let nx = if e >= s.len() {
                s.len() as int
            } else {
                e + 2
            };
            let (hs, b) = spec_parse_rest(s, nx);
            Some(RequestV { line: line, headers: hs, body: b })
        },
    }
}

fn find_line_end(s: &[u8], from: usize) -> (r: usize)
    requires
        from <= s@.len(),
    ensures
        r == line_end(s@, from as int),
        from <= r <= s@.len(),
        r < s@.len() ==> r + 2 <= s@.len(),
{
    let mut i: usize = from;
    while i < s.len() && i + 1 < s.len()
        invariant
            from <= i <= s@.len(),
            line_end(s@, from as int) == line_end(s@, i as int),
        decreases s@.len() - i,
    {
        if s[i] == 13 && s[i + 1] == 10 {
            assert(line_end(s@, i as int) == i as int);
            return i;
        }
        assert(line_end(s@, i as int) == line_end(s@, i + 1 as int));
        i += 1;
    }
    assert(line_end(s@, i as int) == s@.len() as int);
    s.len()
}

fn skip_ws_idx(s: &[u8], from: usize, end: usize) -> (r: usize)
    requires
        from <= end <= s@.len(),
    ensures
        r == skip_ws(s@, from as int, end as int),
        from <= r <= end,
{
    let mut i: usize = from;
    while i < end
        invariant
            from <= i <= end <= s@.len(),
            skip_ws(s@, from as int, end as int) == skip_ws(s@, i as int, end as int),
        decreases end - i,
    {
        if !(s[i] == 32 || s[i] == 9) {
            assert(skip_ws(s@, i as int, end as int) == i as int);
            return i;
        }
        assert(skip_ws(s@, i as int, end as int) == skip_ws(s@, i + 1 as int, end as int));
        i += 1;
    }
    end
}

fn token_end_idx(s: &[u8], from: usize, end: usize) -> (r: usize)
    requires
        from <= end <= s@.len(),
    ensures
        r == token_end(s@, from as int, end as int),
        from <= r <= end,
{
    let mut i: usize = from;
    while i < end
        invariant
            from <= i <= end <= s@.len(),
            token_end(s@, from as int, end as int) == token_end(s@, i as int, end as int),
        decreases end - i,
    {
        if s[i] == 32 || s[i] == 9 {
            assert(token_end(s@, i as int, end as int) == i as int);
            return i;
        }
        assert(token_end(s@, i as int, end as int) == token_end(s@, i + 1 as int, end as int));
        i += 1;
    }
    end
}

fn colon_pos_idx(s: &[u8], from: usize, end: usize) -> (r: usize)
    requires
        from <= end <= s@.len(),
    ensures
        r == colon_pos(s@, from as int, end as int),
        from <= r <= end,
{
    let mut i: usize = from;
    while i < end
        invariant
            from <= i <= end <= s@.len(),
            colon_pos(s@, from as int, end as int) == colon_pos(s@, i as int, end as int),
        decreases end - i,
    {
        if s[i] == 58 {
            assert(colon_pos(s@, i as int, end as int) == i as int);
            return i;
        }
        assert(colon_pos(s@, i as int, end as int) == colon_pos(s@, i + 1 as int, end as int));
        i += 1;
    }
    end
}

fn trim_hi_idx(s: &[u8], lo: usize, hi: usize) -> (r: usize)
    requires
        lo <= hi <= s@.len(),
    ensures
        r == trim_hi(s@, lo as int, hi as int),
        lo <= r <= hi,
{
    let mut i: usize = hi;
    while i > lo
        invariant
            lo <= i <= hi <= s@.len(),
            trim_hi(s@, lo as int, hi as int) == trim_hi(s@, lo as int, i as int),
        decreases i,
    {
        if !(s[i - 1] == 32 || s[i - 1] == 9) {
            assert(trim_hi(s@, lo as int, i as int) == i as int);
            return i;
        }
        assert(trim_hi(s@, lo as int, i as int) == trim_hi(s@, lo as int, i - 1 as int));
        i -= 1;
    }
    lo
}

fn range_eq_ignore_case(s: &[u8], lo: usize, hi: usize, t: &Vec<u8>) -> (r: bool)
    requires
        lo <= hi <= s@.len(),
    ensures
        r == eq_ignore_case(s@.subrange(lo as int, hi as int), t@),
{
    if hi - lo != t.len() {
        return false;
    }
    let mut i: usize = 0;
    while i < t.len()
        invariant
            0 <= i <= t@.len(),
            lo <= hi <= s@.len(),
            hi - lo == t@.len(),
            forall|j: int|
                0 <= j < i ==> lower_byte(s@.subrange(lo as int, hi as int)[j]) == lower_byte(
                    t@[j],
                ),
        decreases t@.len() - i,
    {
        let ca = s[lo + i];
        let cb = t[i];
        let la = if 65 <= ca && ca <= 90 {
            ca + 32
        } else {
            ca
        };
        let lb = if 65 <= cb && cb <= 90 {
            cb + 32
        } else {
            cb
        };
        if la != lb {
            assert(lower_byte(s@.subrange(lo as int, hi as int)[i as int]) != lower_byte(
                t@[i as int],
            ));
            return false;
        }
        i += 1;
    }
    true
}

fn range_eq(s: &[u8], lo: usize, hi: usize, t: &Vec<u8>) -> (r: bool)
    requires
        lo <= hi <= s@.len(),
    ensures
        r == (s@.subrange(lo as int, hi as int) == t@),
{
    if hi - lo != t.len() {
        return false;
    }
    let mut i: usize = 0;
    while i < t.len()
        invariant
            0 <= i <= t@.len(),
            lo <= hi <= s@.len(),
            hi - lo == t@.len(),
            forall|j: int| 0 <= j < i ==> s@.subrange(lo as int, hi as int)[j] == t@[j],
        decreases t@.len() - i,
    {
        if s[lo + i] != t[i] {
            assert(s@.subrange(lo as int, hi as int)[i as int] != t@[i as int]);
            return false;
        }
        i += 1;
    }
    assert(s@.subrange(lo as int, hi as int) =~= t@);
    true
}

fn get_token_vec() -> (r: Vec<u8>)
    ensures
        r@ == get_token(),
{
    let mut v: Vec<u8> = Vec::new();
    v.push(103);
    v.push(101);
    v.push(116);
    assert(v@ =~= get_token());
    v
}

fn post_token_vec() -> (r: Vec<u8>)
    ensures
        r@ == post_token(),
{
    let mut v: Vec<u8> = Vec::new();
    v.push(112);
    v.push(111);
    v.push(115);
    v.push(116);
    assert(v@ =~= post_token());
    v
}

fn user_agent_name_vec() -> (r: Vec<u8>)
    ensures
        r@ == user_agent_name(),
{
    let mut v: Vec<u8> = Vec::new();
    v.push(117);
    v.push(115);
    v.push(101);
    v.push(114);
    v.push(45);
    v.push(97);
    v.push(103);
    v.push(101);
    v.push(110);
    v.push(116);
    assert(v@ =~= user_agent_name());
    v
}

fn accept_encoding_name_vec() -> (r: Vec<u8>)
    ensures
        r@ == accept_encoding_name(),
{
    let mut v: Vec<u8> = Vec::new();
    v.push(97);
    v.push(99);
    v.push(99);
    v.push(101);
    v.push(112);
    v.push(116);
    v.push(45);
    v.push(101);
    v.push(110);
    v.push(99);
    v.push(111);
    v.push(100);
    v.push(105);
    v.push(110);
    v.push(103);
    assert(v@ =~= accept_encoding_name());
    v
}

fn gzip_token_vec() -> (r: Vec<u8>)
    ensures
        r@ == gzip_token(),
{
    let mut v: Vec<u8> = Vec::new();
    v.push(103);
    v.push(122);
    v.push(105);
    v.push(112);
    assert(v@ =~= gzip_token());
    v
}

fn parse_request_line(s: &[u8], lo: usize, hi: usize) -> (r: Option<RequestLine>)
    requires
        lo <= hi <= s@.len(),
    ensures
        match r {
            Some(rl) => spec_parse_request_line(s@, lo as int, hi as int) == Some(rl@),
            None => spec_parse_request_line(s@, lo as int, hi as int) is None,
        },
{
    let m0 = skip_ws_idx(s, lo, hi);
    let m1 = token_end_idx(s, m0, hi);
    if m1 <= m0 {
        return None;
    }
    let gt = get_token_vec();
    let pt = post_token_vec();
    let method: Method = if range_eq_ignore_case(s, m0, m1, &gt) {
        Method::Get
    } else if range_eq_ignore_case(s, m0, m1, &pt) {
        Method::Post
    } else {
        return None;
    };
    let u0 = skip_ws_idx(s, m1, hi);
    let u1 = token_end_idx(s, u0, hi);
    if u1 <= u0 {
        return None;
    }
    let url = copy_range(s, u0, u1);
    let rl = RequestLine { method, url };
    assert(spec_parse_request_line(s@, lo as int, hi as int) == Some(rl@));
    Some(rl)
}

fn parse_header(s: &[u8], lo: usize, hi: usize) -> (r: Option<Header>)
    requires
        lo <= hi <= s@.len(),
    ensures
        match r {
            Some(h) => spec_parse_header(s@, lo as int, hi as int) == Some(h@),
            None => spec_parse_header(s@, lo as int, hi as int) is None,
        },
{
    let c = colon_pos_idx(s, lo, hi);
    if c >= hi {
        return None;
    }
    let n0 = skip_ws_idx(s, lo, c);
    let n1 = trim_hi_idx(s, n0, c);
    let v0 = skip_ws_idx(s, c + 1, hi);
    let v1 = trim_hi_idx(s, v0, hi);
    let ua = user_agent_name_vec();
    let ae = accept_encoding_name_vec();
    let gz = gzip_token_vec();
    if range_eq_ignore_case(s, n0, n1, &ua) {
        let value = copy_range(s, v0, v1);
        let h = Header::UserAgent(value);
        assert(spec_parse_header(s@, lo as int, hi as int) == Some(h@));
        Some(h)
    } else if range_eq_ignore_case(s, n0, n1, &ae) && range_eq(s, v0, v1, &gz) {
        assert(spec_parse_header(s@, lo as int, hi as int) == Some(Header::AcceptEncoding@));
        Some(Header::AcceptEncoding)
    } else {
        return None;
    }
}

proof fn lemma_headers_view_push(hs: Seq<Header>, h: Header)
    ensures
        headers_view(hs.push(h)) == headers_view(hs).push(h@),
{
    assert(headers_view(hs.push(h)) =~= headers_view(hs).push(h@));
}

fn parse_rest(s: &[u8], i: usize, headers: &mut Vec<Header>) -> (b: Option<Vec<u8>>)
    requires
        i <= s@.len(),
    ensures
        ({
            let (hs, sb) = spec_parse_rest(s@, i as int);
            headers_view(final(headers)@) == headers_view(old(headers)@) + hs && body_view(b) == sb
        }),
    decreases s@.len() - i,
{
    if i >= s.len() {
        assert(headers_view(headers@) =~= headers_view(headers@) + Seq::<HeaderV>::empty());
        return None;
    }
    let e = find_line_end(s, i);
    if e == i {
        assert(headers_view(headers@) =~= headers_view(headers@) + Seq::<HeaderV>::empty());
        if i + 2 >= s.len() {
            None
        } else {
            Some(copy_range(s, i + 2, s.len()))
        }
    } else {
        let ghost pre = headers@;
        match parse_header(s, i, e) {
            Some(h) => {
                headers.push(h);
                proof {
                    lemma_headers_view_push(pre, h);
                }
            },
            None => {},
        }
        let nx = if e >= s.len() {
            s.len()
        } else {
            e + 2
        };
        let b = parse_rest(s, nx, headers);
        proof {
            let (hs, _) = spec_parse_rest(s@, nx as int);
            match spec_parse_header(s@, i as int, e as int) {
                Some(hv) => {
                    assert(headers_view(headers@) =~= headers_view(pre) + (seq![hv] + hs));
                },
                None => {},
            }
        }
        b
    }
}

/// Parses one raw request buffer, exactly as `spec_parse` describes:
/// `Ok` with the structured request when the request line holds a
/// valid method and a URL, `Err` otherwise.
pub fn parse(input: &[u8]) -> (r: Result<Request, ParseError>)
    ensures
        match r {
            Ok(req) => spec_parse(input@) == Some(req@),
            Err(_) => spec_parse(input@) is None,
        },
{
    let le = find_line_end(input, 0);
    match parse_request_line(input, 0, le) {
        None => Err(ParseError::BadRequestLine),
        Some(line) => {
            let nx = if le >= input.len() {
                input.len()
            } else {
                le + 2
            };
            let mut headers: Vec<Header> = Vec::new();
            let body = parse_rest(input, nx, &mut headers);
            let req = Request { line, headers, body };
            proof {
                let (hs, _) = spec_parse_rest(input@, nx as int);
                assert(headers_view(Seq::<Header>::empty()) =~= Seq::<HeaderV>::empty());
                assert(headers_view(req.headers@) =~= hs);
            }
            Ok(req)
        },
    }
}

} // verus!
