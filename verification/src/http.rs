use vstd::prelude::*;
use base64::Engine;
use crate::bytes::{eq_ignore_ascii_case, seq_lower};
use crate::ids::parse_id;

verus! {

/// The first position at or after `from` where a carriage return is directly
/// followed by a line feed.
pub open spec fn find_crlf(s: Seq<u8>, from: int) -> Option<int>
    decreases s.len() - from,
    when 0 <= from
{
    if from + 2 > s.len() {
        None
    } else if s[from] == 0x0d && s[from + 1] == 0x0a {
        Some(from)
    } else {
        find_crlf(s, from + 1)
    }
}

pub proof fn lemma_find_crlf_bounds(s: Seq<u8>, from: int)
    requires
        0 <= from,
    ensures
        find_crlf(s, from) matches Some(i) ==> from <= i && i + 2 <= s.len(),
    decreases s.len() - from,
{
    if from + 2 <= s.len() && !(s[from] == 0x0d && s[from + 1] == 0x0a) {
        lemma_find_crlf_bounds(s, from + 1);
    }
}

/// The first position at or after `from` holding the byte `b`.
pub open spec fn find_byte(s: Seq<u8>, from: int, b: u8) -> Option<int>
    decreases s.len() - from,
    when 0 <= from
{
    if from >= s.len() {
        None
    } else if s[from] == b {
        Some(from)
    } else {
        find_byte(s, from + 1, b)
    }
}

pub proof fn lemma_find_byte_bounds(s: Seq<u8>, from: int, b: u8)
    requires
        0 <= from,
    ensures
        find_byte(s, from, b) matches Some(i) ==> from <= i < s.len() && s[i] == b,
    decreases s.len() - from,
{
    if from < s.len() && s[from] != b {
        lemma_find_byte_bounds(s, from + 1, b);
    }
}

fn find_crlf_exec(s: &[u8], from: usize) -> (r: Option<usize>)
    requires
        from <= s@.len(),
    ensures
        match r {
            Some(i) => find_crlf(s@, from as int) == Some(i as int) && from <= i && i + 2
                <= s@.len(),
            None => find_crlf(s@, from as int) is None,
        },
{
    let mut i: usize = from;
    while i < s.len()
        invariant
            from <= i <= s@.len(),
            find_crlf(s@, from as int) == find_crlf(s@, i as int),
        decreases s@.len() - i,
    {
        if s[i] == 0x0d {
            if i + 1 < s.len() {
                if s[i + 1] == 0x0a {
                    return Some(i);
                }
            }
        }
        i += 1;
    }
    None
}

pub(crate) fn find_byte_exec(s: &[u8], from: usize, b: u8) -> (r: Option<usize>)
    requires
        from <= s@.len(),
    ensures
        match r {
            Some(i) => find_byte(s@, from as int, b) == Some(i as int) && from <= i < s@.len()
                && s@[i as int] == b,
            None => find_byte(s@, from as int, b) is None,
        },
{
    let mut i: usize = from;
    while i < s.len()
        invariant
            from <= i <= s@.len(),
            find_byte(s@, from as int, b) == find_byte(s@, i as int, b),
        decreases s@.len() - i,
    {
        if s[i] == b {
            return Some(i);
        }
        i += 1;
    }
    None
}

/// Copies `s[a..b]` into a fresh vector.
pub(crate) fn copy_range(s: &[u8], a: usize, b: usize) -> (r: Vec<u8>)
    requires
        a <= b <= s@.len(),
    ensures
        r@ == s@.subrange(a as int, b as int),
{
    let mut out: Vec<u8> = Vec::new();
    let mut i: usize = a;
    while i < b
        invariant
            a <= i <= b <= s@.len(),
            out@ == s@.subrange(a as int, i as int),
        decreases b - i,
    {
        out.push(s[i]);
        i += 1;
        proof {
            assert(out@ =~= s@.subrange(a as int, i as int));
        }
    }
    out
}

/// Linear white space inside a header line.
pub open spec fn is_ws(b: u8) -> bool {
    b == 0x20 || b == 0x09
}

/// The first position at or after `from` holding a byte that is not blank.
pub open spec fn skip_ws(s: Seq<u8>, from: int) -> int
    decreases s.len() - from,
    when 0 <= from
{
    if from >= s.len() {
        s.len() as int
    } else if is_ws(s[from]) {
        skip_ws(s, from + 1)
    } else {
        from
    }
}

pub proof fn lemma_skip_ws_bounds(s: Seq<u8>, from: int)
    requires
        0 <= from <= s.len(),
    ensures
        from <= skip_ws(s, from) <= s.len(),
    decreases s.len() - from,
{
    if from < s.len() && is_ws(s[from]) {
        lemma_skip_ws_bounds(s, from + 1);
    }
}

/// The position right after the last byte before `upto` that is not blank.
pub open spec fn rskip_ws(s: Seq<u8>, upto: int) -> int
    decreases upto,
    when upto <= s.len()
{
    if upto <= 0 {
        0
    } else if is_ws(s[upto - 1]) {
        rskip_ws(s, upto - 1)
    } else {
        upto
    }
}

pub proof fn lemma_rskip_ws_bounds(s: Seq<u8>, upto: int)
    requires
        0 <= upto <= s.len(),
    ensures
        0 <= rskip_ws(s, upto) <= upto,
    decreases upto,
{
    if upto > 0 && is_ws(s[upto - 1]) {
        lemma_rskip_ws_bounds(s, upto - 1);
    }
}

/// A header value with leading and trailing blanks removed.
pub open spec fn trim_ws(s: Seq<u8>) -> Seq<u8> {
    let a = skip_ws(s, 0);
    let b = rskip_ws(s, s.len() as int);
    if a <= b {
        s.subrange(a, b)
    } else {
        Seq::empty()
    }
}

fn trim_ws_exec(s: &[u8]) -> (r: Vec<u8>)
    ensures
        r@ == trim_ws(s@),
{
    let mut a: usize = 0;
    while a < s.len() && (s[a] == 0x20 || s[a] == 0x09)
        invariant
            a <= s@.len(),
            skip_ws(s@, 0) == skip_ws(s@, a as int),
        decreases s@.len() - a,
    {
        a += 1;
    }
    let mut b: usize = s.len();
    while b > 0 && (s[b - 1] == 0x20 || s[b - 1] == 0x09)
        invariant
            b <= s@.len(),
            rskip_ws(s@, s@.len() as int) == rskip_ws(s@, b as int),
        decreases b,
    {
        b -= 1;
    }
    proof {
        lemma_skip_ws_bounds(s@, 0);
        lemma_rskip_ws_bounds(s@, s@.len() as int);
    }
    if a <= b {
        copy_range(s, a, b)
    } else {
        Vec::new()
    }
}

/// One header line: a name (nonempty, no blanks) before the first colon, and
/// the value after it, trimmed of blanks.
pub open spec fn spec_header_line(line: Seq<u8>) -> Option<(Seq<u8>, Seq<u8>)> {
    match find_byte(line, 0, 0x3a) {
        None => None,
        Some(c) => {
            if c == 0 {
                None
            } else {
                let name = line.subrange(0, c);
                if exists|j: int| 0 <= j < name.len() && is_ws(name[j]) {
                    None
                } else {
                    Some((name, trim_ws(line.subrange(c + 1, line.len() as int))))
                }
            }
        },
    }
}

fn header_line_exec(line: &[u8]) -> (r: Option<(Vec<u8>, Vec<u8>)>)
    ensures
        match r {
            Some(h) => spec_header_line(line@) matches Some(hv) && h.0@ == hv.0 && h.1@ == hv.1,
            None => spec_header_line(line@) is None,
        },
{
    proof {
        lemma_find_byte_bounds(line@, 0, 0x3a);
    }
    match find_byte_exec(line, 0, 0x3a) {
        None => None,
        Some(c) => {
            if c == 0 {
                return None;
            }
            let n = line.len();
            let ghost name = line@.subrange(0, c as int);
            let mut j: usize = 0;
            while j < c
                invariant
                    j <= c < line@.len(),
                    line@.len() == n,
                    find_byte(line@, 0, 0x3a) == Some(c as int),
                    name == line@.subrange(0, c as int),
                    forall|k: int| 0 <= k < j ==> !is_ws(name[k]),
                decreases c - j,
            {
                if line[j] == 0x20 || line[j] == 0x09 {
                    proof {
                        assert(0 <= j < name.len() && is_ws(name[j as int]));
                        assert(exists|k: int| 0 <= k < name.len() && is_ws(name[k]));
                    }
                    return None;
                }
                j += 1;
            }
            let nm = copy_range(line, 0, c);
            let rest = copy_range(line, c + 1, n);
            let val = trim_ws_exec(rest.as_slice());
            Some((nm, val))
        },
    }
}

/// The request line: a method, the request target and a version, separated by
/// single spaces; the target is what the rest of the session consumes.
/// The result carries the target and the position just past the line.
pub open spec fn spec_request_target(s: Seq<u8>) -> Option<(Seq<u8>, int)> {
    match find_crlf(s, 0) {
        None => None,
        Some(end) => {
            let line = s.subrange(0, end);
            match find_byte(line, 0, 0x20) {
                None => None,
                Some(sp1) => {
                    if sp1 == 0 {
                        None
                    } else {
                        match find_byte(line, sp1 + 1, 0x20) {
                            None => None,
                            Some(sp2) => {
                                if sp2 == sp1 + 1 || sp2 + 1 >= line.len() || find_byte(
                                    line,
                                    sp2 + 1,
                                    0x20,
                                ) is Some {
                                    None
                                } else {
                                    Some((line.subrange(sp1 + 1, sp2), end + 2))
                                }
                            },
                        }
                    }
                },
            }
        },
    }
}

fn request_target_exec(s: &[u8]) -> (r: Option<(Vec<u8>, usize)>)
    ensures
        match r {
            Some(t) => spec_request_target(s@) matches Some(tv) && t.0@ == tv.0 && t.1 as int
                == tv.1 && t.1 <= s@.len(),
            None => spec_request_target(s@) is None,
        },
{
    let total = s.len();
    match find_crlf_exec(s, 0) {
        None => None,
        Some(end) => {
            let line = copy_range(s, 0, end);
            proof {
                lemma_find_byte_bounds(line@, 0, 0x20);
            }
            match find_byte_exec(line.as_slice(), 0, 0x20) {
                None => None,
                Some(sp1) => {
                    if sp1 == 0 {
                        return None;
                    }
                    proof {
                        lemma_find_byte_bounds(line@, sp1 + 1, 0x20);
                    }
                    match find_byte_exec(line.as_slice(), sp1 + 1, 0x20) {
                        None => None,
                        Some(sp2) => {
                            if sp2 == sp1 + 1 || sp2 + 1 >= line.len() {
                                return None;
                            }
                            match find_byte_exec(line.as_slice(), sp2 + 1, 0x20) {
                                Some(_) => None,
                                None => {
                                    let target = copy_range(line.as_slice(), sp1 + 1, sp2);
                                    Some((target, end + 2))
                                },
                            }
                        },
                    }
                },
            }
        },
    }
}

/// The header section from `pos` on: header lines up to a blank line or the
/// end of the input. A trailing fragment with no line end is unparsable.
pub open spec fn spec_headers(s: Seq<u8>, pos: int) -> Option<Seq<(Seq<u8>, Seq<u8>)>>
    decreases s.len() - pos,
    when 0 <= pos
    via spec_headers_decreases
{
    if pos >= s.len() {
        Some(Seq::empty())
    } else if pos + 2 <= s.len() && s[pos] == 0x0d && s[pos + 1] == 0x0a {
        Some(Seq::empty())
    } else {
        match find_crlf(s, pos) {
            None => None,
            Some(end) => match spec_header_line(s.subrange(pos, end)) {
                None => None,
                Some(h) => match spec_headers(s, end + 2) {
                    None => None,
                    Some(rest) => Some(seq![h] + rest),
                },
            },
        }
    }
}

#[via_fn]
proof fn spec_headers_decreases(s: Seq<u8>, pos: int) {
    lemma_find_crlf_bounds(s, pos);
}

/// The views of a parsed header list.
pub open spec fn headers_view(hs: Seq<crate::http::Header>) -> Seq<(Seq<u8>, Seq<u8>)> {
    hs.map_values(|h: Header| h@)
}

/// One parsed header: its name as sent, and its value trimmed of blanks.
pub struct Header {
    pub name: Vec<u8>,
    pub value: Vec<u8>,
}

impl View for Header {
    type V = (Seq<u8>, Seq<u8>);

    open spec fn view(&self) -> (Seq<u8>, Seq<u8>) {
        (self.name@, self.value@)
    }
}

fn headers_exec(s: &[u8], pos: usize) -> (r: Option<Vec<Header>>)
    requires
        pos <= s@.len(),
    ensures
        match r {
            Some(hs) => spec_headers(s@, pos as int) == Some(headers_view(hs@)),
            None => spec_headers(s@, pos as int) is None,
        },
{
    let mut acc: Vec<Header> = Vec::new();
    let mut p: usize = pos;
    loop
        invariant
            pos <= p <= s@.len(),
            match spec_headers(s@, p as int) {
                None => spec_headers(s@, pos as int) is None,
                Some(rest) => spec_headers(s@, pos as int) == Some(headers_view(acc@) + rest),
            },
        decreases s@.len() - p,
    {
        if p >= s.len() {
            proof {
                assert(headers_view(acc@) + Seq::<(Seq<u8>, Seq<u8>)>::empty() =~= headers_view(
                    acc@,
                ));
            }
            return Some(acc);
        }
        if s.len() - p >= 2 && s[p] == 0x0d && s[p + 1] == 0x0a {
            proof {
                assert(headers_view(acc@) + Seq::<(Seq<u8>, Seq<u8>)>::empty() =~= headers_view(
                    acc@,
                ));
            }
            return Some(acc);
        }
        match find_crlf_exec(s, p) {
            None => {
                return None;
            },
            Some(end) => {
                let line = copy_range(s, p, end);
                match header_line_exec(line.as_slice()) {
                    None => {
                        return None;
                    },
                    Some(h) => {
                        let ghost prev = acc@;
                        acc.push(Header { name: h.0, value: h.1 });
                        proof {
                            let hv = spec_header_line(s@.subrange(p as int, end as int)).unwrap();
                            assert(headers_view(acc@) =~= headers_view(prev) + seq![hv]);
                            assert(spec_headers(s@, (end + 2) as int) matches Some(tail) ==> (
                            headers_view(prev) + (seq![hv] + tail)) =~= ((headers_view(prev)
                                + seq![hv]) + tail));
                        }
                        p = end + 2;
                    },
                }
            },
        }
    }
}

/// A full inbound request: the target of the request line and the headers.
pub open spec fn spec_parse_http(s: Seq<u8>) -> Option<(Seq<u8>, Seq<(Seq<u8>, Seq<u8>)>)> {
    match spec_request_target(s) {
        None => None,
        Some((target, pos)) => match spec_headers(s, pos) {
            None => None,
            Some(hs) => Some((target, hs)),
        },
    }
}

/// Parses the request line and header section of an inbound request.
pub fn parse_http(s: &[u8]) -> (r: Option<(Vec<u8>, Vec<Header>)>)
    ensures
        match r {
            Some(p) => spec_parse_http(s@) matches Some(pv) && p.0@ == pv.0 && headers_view(p.1@)
                == pv.1,
            None => spec_parse_http(s@) is None,
        },
{
    match request_target_exec(s) {
        None => None,
        Some((target, pos)) => {
            match headers_exec(s, pos) {
                None => None,
                Some(hs) => Some((target, hs)),
            }
        },
    }
}

/// The value of the first header whose name matches `name` without regard to
/// ASCII case, as the original's header scan does.
pub open spec fn spec_find_header(hs: Seq<(Seq<u8>, Seq<u8>)>, name: Seq<u8>) -> Option<Seq<u8>>
    decreases hs.len(),
{
    if hs.len() == 0 {
        None
    } else if seq_lower(hs[0].0) == seq_lower(name) {
        Some(hs[0].1)
    } else {
        spec_find_header(hs.drop_first(), name)
    }
}

/// Finds a header by name, ignoring ASCII case.
pub fn find_header<'a>(hs: &'a Vec<Header>, name: &[u8]) -> (r: Option<&'a Vec<u8>>)
    ensures
        match r {
            Some(v) => spec_find_header(headers_view(hs@), name@) == Some(v@),
            None => spec_find_header(headers_view(hs@), name@) is None,
        },
{
    proof {
        assert(headers_view(hs@).skip(0) =~= headers_view(hs@));
    }
    let mut i: usize = 0;
    while i < hs.len()
        invariant
            i <= hs@.len(),
            spec_find_header(headers_view(hs@), name@) == spec_find_header(
                headers_view(hs@).skip(i as int),
                name@,
            ),
        decreases hs@.len() - i,
    {
        let h = &hs[i];
        proof {
            assert(headers_view(hs@).skip(i as int)[0] == hs@[i as int]@);
        }
        if eq_ignore_ascii_case(h.name.as_slice(), name) {
            return Some(&h.value);
        }
        i += 1;
        proof {
            assert(headers_view(hs@).skip(i as int - 1).drop_first() =~= headers_view(hs@).skip(
                i as int,
            ));
        }
    }
    proof {
        assert(headers_view(hs@).skip(hs@.len() as int) =~= Seq::<(Seq<u8>, Seq<u8>)>::empty());
    }
    None
}

/// The name of the header carrying the replay cursor, `last-event-id`.
pub open spec fn lei_name() -> Seq<u8> {
    seq![0x6cu8, 0x61, 0x73, 0x74, 0x2d, 0x65, 0x76, 0x65, 0x6e, 0x74, 0x2d, 0x69, 0x64]
}

/// The name of the header carrying the credential, `authorization`.
pub open spec fn auth_name() -> Seq<u8> {
    seq![0x61u8, 0x75, 0x74, 0x68, 0x6f, 0x72, 0x69, 0x7a, 0x61, 0x74, 0x69, 0x6f, 0x6e]
}

fn lei_name_exec() -> (r: Vec<u8>)
    ensures
        r@ == lei_name(),
{
    let mut v: Vec<u8> = Vec::new();
    v.push(0x6c);
    v.push(0x61);
    v.push(0x73);
    v.push(0x74);
    v.push(0x2d);
    v.push(0x65);
    v.push(0x76);
    v.push(0x65);
    v.push(0x6e);
    v.push(0x74);
    v.push(0x2d);
    v.push(0x69);
    v.push(0x64);
    proof {
        assert(v@ =~= lei_name());
    }
    v
}

fn auth_name_exec() -> (r: Vec<u8>)
    ensures
        r@ == auth_name(),
{
    let mut v: Vec<u8> = Vec::new();
    v.push(0x61);
    v.push(0x75);
    v.push(0x74);
    v.push(0x68);
    v.push(0x6f);
    v.push(0x72);
    v.push(0x69);
    v.push(0x7a);
    v.push(0x61);
    v.push(0x74);
    v.push(0x69);
    v.push(0x6f);
    v.push(0x6e);
    proof {
        assert(v@ =~= auth_name());
    }
    v
}

/// What an unpadded URL-safe base64 decoder yields on the given input, if it
/// accepts it; a pure function of the input bytes.
pub uninterp spec fn b64url_decode(s: Seq<u8>) -> Option<Seq<u8>>;

/// Relies on base64's `URL_SAFE_NO_PAD` engine: decodes the URL-safe,
/// unpadded base64 alphabet, a pure function of the input bytes.
#[verifier::external_body]
fn decode_base64_url(input: &[u8]) -> (r: Option<Vec<u8>>)
    ensures
        r is Some <==> b64url_decode(input@) is Some,
        r matches Some(v) ==> b64url_decode(input@) matches Some(d) && v@ == d,
{
    base64::engine::general_purpose::URL_SAFE_NO_PAD.decode(input).ok()
}

/// Everything the session needs from one inbound request.
#[derive(Debug)]
pub struct ParsedRequest {
    /// The request path with its leading separator stripped.
    pub topic: Vec<u8>,
    /// The replay cursor, when a well-formed one was presented.
    pub last_event_id: Option<u128>,
    /// The decoded credential bytes, when well-formed ones were presented.
    pub auth_token: Option<Vec<u8>>,
}

/// How an inbound request can fail.
#[derive(PartialEq, Eq, Structural, Debug, Clone, Copy)]
pub enum WireError {
    /// The request line or header section is unparsable, or no usable path
    /// is present; the session answers 400 and ends.
    MalformedRequest,
    /// The replay cursor header is present but not an identifier; the caller
    /// treats the cursor as absent and the session continues.
    InvalidLastEventId,
}

/// The replay cursor after degradation: an unparsable value counts as absent.
pub open spec fn spec_last_event_id(hs: Seq<(Seq<u8>, Seq<u8>)>) -> Option<u128> {
    match spec_find_header(hs, lei_name()) {
        None => None,
        Some(v) => parse_id(v),
    }
}

/// Parses the replay cursor header value, distinguishing the malformed case.
pub fn parse_last_event_id(value: &[u8]) -> (r: Result<u128, WireError>)
    ensures
        match parse_id(value@) {
            Some(id) => r == Ok::<u128, WireError>(id),
            None => r == Err::<u128, WireError>(WireError::InvalidLastEventId),
        },
{
    match crate::ids::parse_event_id(value) {
        Some(id) => Ok(id),
        None => Err(WireError::InvalidLastEventId),
    }
}

/// Parses one inbound request into what the session consumes: the topic, an
/// optional replay cursor and optional credential bytes. A request whose
/// request line is unparsable, or whose target does not carry a leading `/`,
/// is malformed. An unparsable cursor or credential degrades to absent.
pub fn parse_request(raw: &[u8]) -> (r: Result<ParsedRequest, WireError>)
    ensures
        match spec_parse_http(raw@) {
            None => r == Err::<ParsedRequest, WireError>(WireError::MalformedRequest),
            Some(pv) => {
                if pv.0.len() == 0 || pv.0[0] != 0x2f {
                    r == Err::<ParsedRequest, WireError>(WireError::MalformedRequest)
                } else {
                    r matches Ok(pr) && pr.topic@ == pv.0.drop_first() && pr.last_event_id
                        == spec_last_event_id(pv.1) && (match spec_find_header(pv.1, auth_name()) {
                        None => pr.auth_token is None,
                        Some(v) => match b64url_decode(v) {
                            None => pr.auth_token is None,
                            Some(d) => pr.auth_token matches Some(t) && t@ == d,
                        },
                    })
                }
            },
        },
{
    match parse_http(raw) {
        None => Err(WireError::MalformedRequest),
        Some((target, hs)) => {
            if target.len() == 0 {
                return Err(WireError::MalformedRequest);
            }
            if target[0] != 0x2f {
                return Err(WireError::MalformedRequest);
            }
            let topic = copy_range(target.as_slice(), 1, target.len());
            proof {
                assert(target@.subrange(1, target@.len() as int) =~= target@.drop_first());
            }
            let lei = lei_name_exec();
            let last_event_id = match find_header(&hs, lei.as_slice()) {
                None => None,
                Some(v) => match parse_last_event_id(v.as_slice()) {
                    Ok(id) => Some(id),
                    Err(_) => None,
                },
            };
            let an = auth_name_exec();
            let auth_token = match find_header(&hs, an.as_slice()) {
                None => None,
                Some(v) => decode_base64_url(v.as_slice()),
            };
            Ok(ParsedRequest { topic, last_event_id, auth_token })
        },
    }
}

} // verus!
