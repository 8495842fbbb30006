//! The HTTP message codec.
//!
//! Messages are handled as CRLF-framed text, exactly as they cross the
//! wire: a request is split at the first blank line into a header block and
//! a body, the request line is whitespace-tokenized into method and path
//! (further tokens, such as an HTTP version, are accepted and ignored), and
//! the `Host` header is extracted case-insensitively if present.  On the
//! response side the codec rebuilds the wire form from the parsed pieces,
//! dropping `Transfer-Encoding` and injecting a `Content-Length` computed
//! from the decoded body when the origin declared none, so that the bytes
//! relayed to the client stay internally consistent.

use vstd::prelude::*;

use crate::errors::ParseError;
use crate::flow::{pair_views, FlowRequest, FlowRequestSpec, FlowResponse};
use crate::text::{
    ci_eq, ci_eq_str, dec_str, find_sub, find_sub_spec, first_match_from, is_digit_char,
    lemma_dec_str_digits, lemma_first_match_from, lemma_first_match_is, lemma_match_head,
    lemma_match_shift, match_at, split_all, split_once_at, split_seq, starts_with_spec,
    starts_with_str, substring_of, trim_back, trim_front, trim_spec, trim_str, usize_to_dec,
    views_of, ws_tokens, ws_tokens_spec,
};
use vstd::utf8::encode_utf8;

verus! {

/// Position right after the last character of the line starting at `from`:
/// the position of the next CRLF, or the end of the text.
pub open spec fn line_end(s: Seq<char>, from: int) -> int {
    match first_match_from(s, "\r\n"@, from) {
        Some(i) => i,
        None => s.len() as int,
    }
}

/// The first line of a raw message.
pub open spec fn status_line_of(raw: Seq<char>) -> Seq<char> {
    raw.subrange(0, line_end(raw, 0))
}

/// Position of the blank line separating headers from body, or the end.
pub open spec fn head_end(raw: Seq<char>) -> int {
    match find_sub_spec(raw, "\r\n\r\n"@) {
        Some(i) => i,
        None => raw.len() as int,
    }
}

/// The header block: everything before the first blank line.
pub open spec fn head_of(raw: Seq<char>) -> Seq<char> {
    raw.subrange(0, head_end(raw))
}

/// The body: everything after the first blank line, empty if there is none.
pub open spec fn body_of(raw: Seq<char>) -> Seq<char> {
    match find_sub_spec(raw, "\r\n\r\n"@) {
        Some(i) => raw.subrange(i + 4, raw.len() as int),
        None => Seq::empty(),
    }
}

/// The raw text holds a parseable request line: at least a method token and
/// a path token on its first line.
pub open spec fn req_ok(raw: Seq<char>) -> bool {
    ws_tokens_spec(status_line_of(raw)).len() >= 2
}

/// The `Host` value carried by one header line, if it is a host line: the
/// name before the first colon must equal `host` up to ASCII case; the
/// value runs from that colon to the next one (a port suffix is dropped) or
/// to the end of the line, trimmed of blanks.
pub open spec fn host_of_line(line: Seq<char>) -> Option<Seq<char>> {
    match first_match_from(line, ":"@, 0) {
        None => None,
        Some(c1) => if ci_eq(line.subrange(0, c1), "host"@) {
            let rest = line.subrange(c1 + 1, line.len() as int);
            Some(
                trim_spec(
                    match first_match_from(rest, ":"@, 0) {
                        Some(c2) => rest.subrange(0, c2),
                        None => rest,
                    },
                ),
            )
        } else {
            None
        },
    }
}

/// The value of the first host line among `lines`, empty if there is none.
pub open spec fn first_host(lines: Seq<Seq<char>>) -> Seq<char>
    decreases lines.len(),
{
    if lines.len() == 0 {
        Seq::empty()
    } else {
        match host_of_line(lines[0]) {
            Some(v) => v,
            None => first_host(lines.drop_first()),
        }
    }
}

/// What parsing a raw request under a given id yields, when `req_ok` holds.
pub open spec fn spec_parse_request(raw: Seq<char>, id: Seq<char>) -> FlowRequestSpec {
    let toks = ws_tokens_spec(status_line_of(raw));
    FlowRequestSpec {
        id: id,
        method: toks[0],
        path: toks[1],
        host: first_host(split_seq(head_of(raw), "\r\n"@)),
        headers: head_of(raw),
        body: body_of(raw),
        raw: raw,
    }
}

/// The tunnel target named on a request line: its second whitespace token.
pub open spec fn connect_target(request: Seq<char>) -> Option<Seq<char>> {
    let toks = ws_tokens_spec(status_line_of(request));
    if toks.len() >= 2 {
        Some(toks[1])
    } else {
        None
    }
}

/// Extracts the `Host` value of one header line, if it is a host line.
fn host_of_line_exec(line: &str) -> (r: Option<String>)
    ensures
        match r {
            Some(v) => host_of_line(line@) == Some(v@),
            None => host_of_line(line@) is None,
        },
{
    proof {
        reveal_strlit(":");
    }
    let ln = line.unicode_len();
    match find_sub(line, ":") {
        None => None,
        Some(c1) => {
            proof {
                lemma_first_match_from(line@, ":"@, 0);
            }
            let name = substring_of(line, 0, c1);
            if ci_eq_str(name.as_str(), "host") {
                let rest = substring_of(line, c1 + 1, ln);
                let rn = rest.as_str().unicode_len();
                let v = match find_sub(rest.as_str(), ":") {
                    Some(c2) => {
                        proof {
                            lemma_first_match_from(rest@, ":"@, 0);
                        }
                        substring_of(rest.as_str(), 0, c2)
                    },
                    None => rest,
                };
                Some(trim_str(v.as_str()))
            } else {
                None
            }
        },
    }
}

/// Finds the first host line among the header lines.
fn first_host_exec(lines: &Vec<String>) -> (r: String)
    ensures
        r@ == first_host(views_of(lines@)),
{
    let n = lines.len();
    let mut i: usize = 0;
    proof {
        assert(views_of(lines@).skip(0) =~= views_of(lines@));
    }
    while i < n
        invariant
            n == lines@.len(),
            i <= n,
            first_host(views_of(lines@)) == first_host(views_of(lines@).skip(i as int)),
        decreases n - i,
    {
        let ghost lv = views_of(lines@);
        proof {
            assert(lv.skip(i as int)[0] == lv[i as int]);
        }
        match host_of_line_exec(lines[i].as_str()) {
            Some(v) => {
                return v;
            },
            None => {
                proof {
                    assert(lv.skip(i as int).drop_first() =~= lv.skip(i + 1));
                }
            },
        }
        i += 1;
    }
    proof {
        assert(views_of(lines@).skip(n as int) =~= Seq::<Seq<char>>::empty());
    }
    String::new()
}

/// Parses a raw request under a freshly generated id.
///
/// Splits on the first blank-line boundary to separate headers from body;
/// the first line must tokenize into at least a method and a path; the
/// `Host` header is extracted if present, else left empty.
pub fn parse_request(raw: String, id: String) -> (r: Result<FlowRequest, ParseError>)
    ensures
        req_ok(raw@) ==> r is Ok && r->Ok_0@ == spec_parse_request(raw@, id@),
        !req_ok(raw@) ==> r == Err::<FlowRequest, ParseError>(ParseError::MalformedRequest),
{
    proof {
        reveal_strlit("\r\n");
        reveal_strlit("\r\n\r\n");
    }
    let n = raw.as_str().unicode_len();
    let line_e = match find_sub(raw.as_str(), "\r\n") {
        Some(i) => {
            proof {
                lemma_first_match_from(raw@, "\r\n"@, 0);
            }
            i
        },
        None => n,
    };
    let status_line = substring_of(raw.as_str(), 0, line_e);
    let toks = ws_tokens(status_line.as_str());
    if toks.len() < 2 {
        return Err(ParseError::MalformedRequest);
    }
    let method = toks[0].clone();
    let path = toks[1].clone();
    proof {
        assert(views_of(toks@)[0] == toks@[0]@);
        assert(views_of(toks@)[1] == toks@[1]@);
    }
    let (headers, body) = match split_once_at(raw.as_str(), "\r\n\r\n") {
        Some(p) => p,
        None => {
            let h = raw.clone();
            proof {
                assert(raw@.subrange(0, raw@.len() as int) =~= raw@);
            }
            (h, String::new())
        },
    };
    let lines = split_all(headers.as_str(), "\r\n");
    let host = first_host_exec(&lines);
    Ok(FlowRequest::new(id, method, path, host, headers, body, raw))
}

/// Reads the tunnel target out of a request line: the second whitespace
/// token of the first line, as written by the client.
pub fn get_domain(request: &String) -> (r: Result<String, ParseError>)
    ensures
        match connect_target(request@) {
            Some(d) => r is Ok && r->Ok_0@ == d,
            None => r == Err::<String, ParseError>(ParseError::MalformedRequest),
        },
{
    proof {
        reveal_strlit("\r\n");
    }
    let n = request.as_str().unicode_len();
    let line_e = match find_sub(request.as_str(), "\r\n") {
        Some(i) => {
            proof {
                lemma_first_match_from(request@, "\r\n"@, 0);
            }
            i
        },
        None => n,
    };
    let status_line = substring_of(request.as_str(), 0, line_e);
    let toks = ws_tokens(status_line.as_str());
    if toks.len() < 2 {
        return Err(ParseError::MalformedRequest);
    }
    proof {
        assert(views_of(toks@)[1] == toks@[1]@);
    }
    Ok(toks[1].clone())
}

/// The header pairs read off a list of header lines: each line with a
/// colon yields its name and value, both trimmed; lines without a colon
/// carry no header.
pub open spec fn parsed_headers(lines: Seq<Seq<char>>) -> Seq<(Seq<char>, Seq<char>)>
    decreases lines.len(),
{
    if lines.len() == 0 {
        Seq::empty()
    } else {
        let line = lines[0];
        let rest = parsed_headers(lines.drop_first());
        match first_match_from(line, ":"@, 0) {
            None => rest,
            Some(c) => seq![
                (trim_spec(line.subrange(0, c)), trim_spec(line.subrange(c + 1, line.len() as int))),
            ] + rest,
        }
    }
}

/// Reads the headers off `lines`, starting at position `from`.
pub fn parse_header_lines(lines: &Vec<String>, from: usize) -> (r: Vec<(String, String)>)
    requires
        from <= lines@.len(),
    ensures
        pair_views(r@) == parsed_headers(views_of(lines@).skip(from as int)),
{
    let ghost line_views = views_of(lines@);
    let ghost hs = parsed_headers(line_views.skip(from as int));
    let mut out: Vec<(String, String)> = Vec::new();
    let n = lines.len();
    let mut i: usize = from;
    proof {
        assert(pair_views(out@) =~= Seq::<(Seq<char>, Seq<char>)>::empty());
    }
    while i < n
        invariant
            n == lines@.len(),
            from <= i <= n,
            line_views == views_of(lines@),
            hs == parsed_headers(line_views.skip(from as int)),
            hs == pair_views(out@) + parsed_headers(line_views.skip(i as int)),
        decreases n - i,
    {
        let ghost rest = line_views.skip(i as int);
        proof {
            reveal_strlit(":");
            assert(rest[0] == line_views[i as int]);
            assert(rest.drop_first() =~= line_views.skip(i + 1));
        }
        let line = lines[i].as_str();
        let ln = line.unicode_len();
        match find_sub(line, ":") {
            Some(c) => {
                proof {
                    lemma_first_match_from(line@, ":"@, 0);
                }
                let name = trim_str(substring_of(line, 0, c).as_str());
                let value = trim_str(substring_of(line, c + 1, ln).as_str());
                let ghost before = out@;
                out.push((name, value));
                proof {
                    assert(pair_views(out@) =~= pair_views(before).push(
                        (out@.last().0@, out@.last().1@),
                    ));
                    assert(hs =~= pair_views(out@) + parsed_headers(line_views.skip(i + 1)));
                }
            },
            None => {},
        }
        i += 1;
    }
    proof {
        assert(parsed_headers(line_views.skip(n as int)) =~= Seq::<(Seq<char>, Seq<char>)>::empty());
        assert(hs =~= pair_views(out@));
    }
    out
}

/// One header line of the rebuilt wire form: dropped entirely for
/// `Transfer-Encoding`, rendered as `name: value` otherwise.
pub open spec fn header_line_spec(name: Seq<char>, value: Seq<char>) -> Seq<char> {
    if ci_eq(name, "transfer-encoding"@) {
        Seq::empty()
    } else {
        name + ": "@ + value + "\r\n"@
    }
}

/// The rebuilt header block, in the origin's header order.
pub open spec fn headers_block_spec(headers: Seq<(Seq<char>, Seq<char>)>) -> Seq<char>
    decreases headers.len(),
{
    if headers.len() == 0 {
        Seq::empty()
    } else {
        header_line_spec(headers[0].0, headers[0].1) + headers_block_spec(headers.drop_first())
    }
}

/// The origin declared a content length itself.
pub open spec fn has_content_length(headers: Seq<(Seq<char>, Seq<char>)>) -> bool {
    exists|i: int| 0 <= i < headers.len() && ci_eq((#[trigger] headers[i]).0, "content-length"@)
}

/// The corrective header line: a `content-length` computed from the decoded
/// body, present exactly when the origin declared none.
pub open spec fn content_length_patch(
    headers: Seq<(Seq<char>, Seq<char>)>,
    body: Seq<char>,
) -> Seq<char> {
    if has_content_length(headers) {
        Seq::empty()
    } else {
        "content-length: "@ + dec_str(encode_utf8(body).len() as nat) + "\r\n"@
    }
}

/// The full rebuilt wire form of a response.
pub open spec fn response_raw_spec(
    status: Seq<char>,
    headers: Seq<(Seq<char>, Seq<char>)>,
    body: Seq<char>,
) -> Seq<char> {
    "HTTP/1.1 "@ + status + "\r\n"@ + headers_block_spec(headers) + content_length_patch(
        headers,
        body,
    ) + "\r\n"@ + body
}

/// Appending one more header extends the block by that header's line.
pub proof fn lemma_headers_block_snoc(headers: Seq<(Seq<char>, Seq<char>)>, i: int)
    requires
        0 <= i < headers.len(),
    ensures
        headers_block_spec(headers.take(i + 1)) == headers_block_spec(headers.take(i))
            + header_line_spec(headers[i].0, headers[i].1),
    decreases i,
{
    if i == 0 {
        assert(headers.take(0) =~= Seq::<(Seq<char>, Seq<char>)>::empty());
        assert(headers.take(1).drop_first() =~= Seq::<(Seq<char>, Seq<char>)>::empty());
        assert(headers.take(1)[0] == headers[0]);
        assert(headers_block_spec(Seq::<(Seq<char>, Seq<char>)>::empty())
            == Seq::<char>::empty());
        assert(headers_block_spec(headers.take(1)) == header_line_spec(
            headers[0].0,
            headers[0].1,
        ) + Seq::<char>::empty());
        assert(header_line_spec(headers[0].0, headers[0].1) + Seq::<char>::empty()
            =~= header_line_spec(headers[0].0, headers[0].1));
        assert(Seq::<char>::empty() + header_line_spec(headers[0].0, headers[0].1)
            =~= header_line_spec(headers[0].0, headers[0].1));
    } else {
        let d = headers.drop_first();
        lemma_headers_block_snoc(d, i - 1);
        assert(headers.take(i + 1).drop_first() =~= d.take(i));
        assert(headers.take(i).drop_first() =~= d.take(i - 1));
        assert(headers.take(i + 1)[0] == headers[0]);
        assert(headers.take(i)[0] == headers[0]);
        assert(d[i - 1] == headers[i]);
        assert(headers_block_spec(headers.take(i + 1)) == header_line_spec(
            headers[0].0,
            headers[0].1,
        ) + (headers_block_spec(d.take(i - 1)) + header_line_spec(headers[i].0, headers[i].1)));
        assert(header_line_spec(headers[0].0, headers[0].1) + (headers_block_spec(d.take(i - 1))
            + header_line_spec(headers[i].0, headers[i].1)) =~= (header_line_spec(
            headers[0].0,
            headers[0].1,
        ) + headers_block_spec(d.take(i - 1))) + header_line_spec(headers[i].0, headers[i].1));
    }
}

/// Rebuilds the wire form of a response from its parsed pieces.
fn build_response_raw(status: &str, headers: &Vec<(String, String)>, body: &str) -> (r: String)
    ensures
        r@ == response_raw_spec(status@, pair_views(headers@), body@),
{
    let ghost hv = pair_views(headers@);
    let mut raw = String::from_str("HTTP/1.1 ");
    raw.append(status);
    raw.append("\r\n");
    let m = headers.len();
    let mut i: usize = 0;
    proof {
        assert(hv.take(0) =~= Seq::<(Seq<char>, Seq<char>)>::empty());
    }
    while i < m
        invariant
            m == headers@.len(),
            i <= m,
            hv == pair_views(headers@),
            raw@ == "HTTP/1.1 "@ + status@ + "\r\n"@ + headers_block_spec(hv.take(i as int)),
        decreases m - i,
    {
        proof {
            assert(hv[i as int] == (headers@[i as int].0@, headers@[i as int].1@));
        }
        let k = &headers[i].0;
        let v = &headers[i].1;
        if !ci_eq_str(k.as_str(), "transfer-encoding") {
            raw.append(k.as_str());
            raw.append(": ");
            raw.append(v.as_str());
            raw.append("\r\n");
        }
        proof {
            lemma_headers_block_snoc(hv, i as int);
            assert(raw@ =~= "HTTP/1.1 "@ + status@ + "\r\n"@ + headers_block_spec(
                hv.take(i + 1),
            ));
        }
        i += 1;
    }
    proof {
        assert(hv.take(m as int) =~= hv);
    }
    let mut has_cl = false;
    let mut j: usize = 0;
    while j < m
        invariant
            m == headers@.len(),
            j <= m,
            hv == pair_views(headers@),
            has_cl == exists|k: int|
                0 <= k < j && ci_eq((#[trigger] hv[k]).0, "content-length"@),
        decreases m - j,
    {
        proof {
            assert(hv[j as int] == (headers@[j as int].0@, headers@[j as int].1@));
        }
        if ci_eq_str(headers[j].0.as_str(), "content-length") {
            has_cl = true;
        }
        j += 1;
    }
    proof {
        assert(hv.len() == m);
        assert(has_cl == has_content_length(hv));
    }
    if !has_cl {
        raw.append("content-length: ");
        let body_bytes = body.as_bytes();
        let lenstr = usize_to_dec(body_bytes.len());
        proof {
            assert(lenstr@ == dec_str(encode_utf8(body@).len() as nat));
        }
        raw.append(lenstr.as_str());
        raw.append("\r\n");
    }
    proof {
        assert(raw@ =~= "HTTP/1.1 "@ + status@ + "\r\n"@ + headers_block_spec(hv)
            + content_length_patch(hv, body@));
    }
    raw.append("\r\n");
    raw.append(body);
    proof {
        assert(raw@ =~= response_raw_spec(status@, hv, body@));
    }
    raw
}

/// Builds the response flow for one cycle: the parsed pieces as handed back
/// by the origin, next to the rebuilt wire form that is relayed to the
/// client.
pub fn build_response_flow(
    id: String,
    status: String,
    headers: Vec<(String, String)>,
    body: String,
) -> (r: FlowResponse)
    ensures
        r@.id == id@,
        r@.status == status@,
        r@.headers == pair_views(headers@),
        r@.body == body@,
        r@.raw == response_raw_spec(status@, pair_views(headers@), body@),
{
    let raw = build_response_raw(status.as_str(), &headers, body.as_str());
    FlowResponse::new(id, status, headers, body, raw)
}

/// The raw text is a parseable response: an `HTTP/1.1` status line and a
/// blank line separating headers from body.
pub open spec fn resp_ok(raw: Seq<char>) -> bool {
    starts_with_spec(raw, "HTTP/1.1 "@) && find_sub_spec(raw, "\r\n\r\n"@) is Some
}

/// The status text of a response: the first line after its protocol tag.
pub open spec fn resp_status_spec(raw: Seq<char>) -> Seq<char> {
    raw.subrange(9, line_end(raw, 0))
}

/// The header lines of a response: the lines strictly between the status
/// line and the blank line.
pub open spec fn resp_header_lines(raw: Seq<char>) -> Seq<Seq<char>> {
    if line_end(raw, 0) + 2 <= head_end(raw) {
        split_seq(raw.subrange(line_end(raw, 0) + 2, head_end(raw)), "\r\n"@)
    } else {
        Seq::empty()
    }
}

/// The header pairs of a response.
pub open spec fn resp_headers_spec(raw: Seq<char>) -> Seq<(Seq<char>, Seq<char>)> {
    parsed_headers(resp_header_lines(raw))
}

/// In a parseable response the status line ends at or after its protocol
/// tag and before the blank line.
pub proof fn lemma_resp_bounds(raw: Seq<char>)
    requires
        resp_ok(raw),
    ensures
        first_match_from(raw, "\r\n"@, 0) is Some,
        9 <= line_end(raw, 0),
        line_end(raw, 0) <= head_end(raw),
        head_end(raw) + 4 <= raw.len(),
{
    reveal_strlit("HTTP/1.1 ");
    reveal_strlit("\r\n");
    reveal_strlit("\r\n\r\n");
    lemma_first_match_from(raw, "\r\n"@, 0);
    lemma_first_match_from(raw, "\r\n\r\n"@, 0);
    let h = find_sub_spec(raw, "\r\n\r\n"@)->0;
    assert(match_at(raw, "\r\n"@, h)) by {
        assert(raw.subrange(h, h + 4) == "\r\n\r\n"@);
        assert("\r\n\r\n"@.subrange(0, 2) =~= "\r\n"@);
        assert(raw.subrange(h, h + 2) =~= raw.subrange(h, h + 4).subrange(0, 2));
    }
    match first_match_from(raw, "\r\n"@, 0) {
        None => {
            assert(false);
        },
        Some(m) => {
            assert(m <= h);
            if m < 9 {
                assert(raw[m] == "HTTP/1.1 "@[m]) by {
                    assert(raw.subrange(0, 9)[m] == raw[m]);
                }
                assert(raw[m] == '\r') by {
                    assert(raw.subrange(m, m + 2)[0] == raw[m]);
                }
            }
        },
    }
}

/// Parses a raw response back into status, headers and body: the generic
/// counterpart of [`build_response_flow`]'s rebuilt wire form.
pub fn parse_response_raw(raw: &str) -> (r: Result<(String, Vec<(String, String)>, String),
    ParseError,
>)
    ensures
        resp_ok(raw@) ==> r is Ok && r->Ok_0.0@ == resp_status_spec(raw@) && pair_views(
            r->Ok_0.1@,
        ) == resp_headers_spec(raw@) && r->Ok_0.2@ == body_of(raw@),
        !resp_ok(raw@) ==> r == Err::<(String, Vec<(String, String)>, String), ParseError>(
            ParseError::MalformedResponse,
        ),
{
    proof {
        reveal_strlit("\r\n");
        reveal_strlit("\r\n\r\n");
    }
    if !starts_with_str(raw, "HTTP/1.1 ") {
        return Err(ParseError::MalformedResponse);
    }
    let body = match split_once_at(raw, "\r\n\r\n") {
        Some(p) => p.1,
        None => {
            return Err(ParseError::MalformedResponse);
        },
    };
    proof {
        lemma_resp_bounds(raw@);
    }
    let he = match find_sub(raw, "\r\n\r\n") {
        Some(i) => i,
        None => {
            proof {
                assert(false);
            }
            return Err(ParseError::MalformedResponse);
        },
    };
    let le = match find_sub(raw, "\r\n") {
        Some(i) => i,
        None => {
            proof {
                assert(false);
            }
            return Err(ParseError::MalformedResponse);
        },
    };
    let n = raw.unicode_len();
    let status = substring_of(raw, 9, le);
    let hdrs = if le + 2 <= he {
        let hseg = substring_of(raw, le + 2, he);
        let lines = split_all(hseg.as_str(), "\r\n");
        proof {
            assert(views_of(lines@).skip(0) =~= views_of(lines@));
        }
        parse_header_lines(&lines, 0)
    } else {
        Vec::new()
    };
    proof {
        if !(le + 2 <= he) {
            assert(pair_views(hdrs@) =~= Seq::<(Seq<char>, Seq<char>)>::empty());
            assert(resp_header_lines(raw@) =~= Seq::<Seq<char>>::empty());
        }
    }
    Ok((status, hdrs, body))
}

/// Text free of carriage returns and line feeds.
pub open spec fn line_clean(s: Seq<char>) -> bool {
    forall|i: int| 0 <= i < s.len() ==> s[i] != '\r' && s[i] != '\n'
}

/// A header name as it can actually cross the wire: nonempty, free of
/// line breaks, colons and surrounding blanks.
pub open spec fn header_name_wf(n: Seq<char>) -> bool {
    &&& n.len() > 0
    &&& trim_front(n) == n
    &&& trim_back(n) == n
    &&& forall|i: int| 0 <= i < n.len() ==> n[i] != '\r' && n[i] != '\n' && n[i] != ':'
}

/// A header value as it can actually cross the wire: free of line breaks
/// and surrounding blanks.
pub open spec fn header_value_wf(v: Seq<char>) -> bool {
    trim_front(v) == v && trim_back(v) == v && line_clean(v)
}

/// The headers that survive the rebuild: all but `Transfer-Encoding`.
pub open spec fn te_kept(headers: Seq<(Seq<char>, Seq<char>)>) -> Seq<(Seq<char>, Seq<char>)>
    decreases headers.len(),
{
    if headers.len() == 0 {
        Seq::empty()
    } else {
        (if ci_eq(headers[0].0, "transfer-encoding"@) {
            Seq::empty()
        } else {
            seq![headers[0]]
        }) + te_kept(headers.drop_first())
    }
}

/// What parsing the rebuilt wire form must reproduce: the origin's header
/// set minus `Transfer-Encoding`, plus the injected `content-length` when
/// the origin declared none.
pub open spec fn round_trip_headers(
    headers: Seq<(Seq<char>, Seq<char>)>,
    body: Seq<char>,
) -> Seq<(Seq<char>, Seq<char>)> {
    te_kept(headers) + (if has_content_length(headers) {
        Seq::empty()
    } else {
        seq![("content-length"@, dec_str(encode_utf8(body).len() as nat))]
    })
}

/// The text of one written header line.
pub open spec fn line_text(p: (Seq<char>, Seq<char>)) -> Seq<char> {
    p.0 + ": "@ + p.1
}

/// The texts of a list of written header lines.
pub open spec fn texts_of(ps: Seq<(Seq<char>, Seq<char>)>) -> Seq<Seq<char>>
    decreases ps.len(),
{
    if ps.len() == 0 {
        Seq::empty()
    } else {
        seq![line_text(ps[0])] + texts_of(ps.drop_first())
    }
}

/// The lines each followed by CRLF.
pub open spec fn crlf_terminated(ls: Seq<Seq<char>>) -> Seq<char>
    decreases ls.len(),
{
    if ls.len() == 0 {
        Seq::empty()
    } else {
        ls[0] + "\r\n"@ + crlf_terminated(ls.drop_first())
    }
}

/// The lines joined by CRLF, with none at the end.
pub open spec fn crlf_separated(ls: Seq<Seq<char>>) -> Seq<char>
    decreases ls.len(),
{
    if ls.len() == 0 {
        Seq::empty()
    } else if ls.len() == 1 {
        ls[0]
    } else {
        ls[0] + "\r\n"@ + crlf_separated(ls.drop_first())
    }
}

proof fn lemma_texts_of_append(a: Seq<(Seq<char>, Seq<char>)>, b: Seq<(Seq<char>, Seq<char>)>)
    ensures
        texts_of(a + b) == texts_of(a) + texts_of(b),
    decreases a.len(),
{
    if a.len() == 0 {
        assert(a + b =~= b);
        assert(texts_of(a) + texts_of(b) =~= texts_of(b));
    } else {
        assert((a + b)[0] == a[0]);
        assert((a + b).drop_first() =~= a.drop_first() + b);
        lemma_texts_of_append(a.drop_first(), b);
        assert(seq![line_text(a[0])] + (texts_of(a.drop_first()) + texts_of(b)) =~= (seq![
            line_text(a[0]),
        ] + texts_of(a.drop_first())) + texts_of(b));
    }
}

proof fn lemma_crlf_terminated_append(a: Seq<Seq<char>>, b: Seq<Seq<char>>)
    ensures
        crlf_terminated(a + b) == crlf_terminated(a) + crlf_terminated(b),
    decreases a.len(),
{
    if a.len() == 0 {
        assert(a + b =~= b);
        assert(crlf_terminated(a) + crlf_terminated(b) =~= crlf_terminated(b));
    } else {
        assert((a + b)[0] == a[0]);
        assert((a + b).drop_first() =~= a.drop_first() + b);
        lemma_crlf_terminated_append(a.drop_first(), b);
        assert(a[0] + "\r\n"@ + (crlf_terminated(a.drop_first()) + crlf_terminated(b)) =~= (a[0]
            + "\r\n"@ + crlf_terminated(a.drop_first())) + crlf_terminated(b));
    }
}

proof fn lemma_crlf_terminated_separated(ls: Seq<Seq<char>>)
    requires
        ls.len() >= 1,
    ensures
        crlf_terminated(ls) == crlf_separated(ls) + "\r\n"@,
    decreases ls.len(),
{
    if ls.len() == 1 {
        assert(crlf_terminated(ls.drop_first()) =~= Seq::<char>::empty());
        assert(ls[0] + "\r\n"@ + Seq::<char>::empty() =~= ls[0] + "\r\n"@);
    } else {
        lemma_crlf_terminated_separated(ls.drop_first());
        assert(ls[0] + "\r\n"@ + (crlf_separated(ls.drop_first()) + "\r\n"@) =~= (ls[0] + "\r\n"@
            + crlf_separated(ls.drop_first())) + "\r\n"@);
    }
}

/// The rebuilt header area is exactly the written lines, each terminated
/// by CRLF.
proof fn lemma_block_is_terminated_texts(headers: Seq<(Seq<char>, Seq<char>)>)
    ensures
        headers_block_spec(headers) == crlf_terminated(texts_of(te_kept(headers))),
    decreases headers.len(),
{
    if headers.len() == 0 {
    } else {
        let rest = headers.drop_first();
        lemma_block_is_terminated_texts(rest);
        if ci_eq(headers[0].0, "transfer-encoding"@) {
            assert(te_kept(headers) =~= te_kept(rest));
            assert(header_line_spec(headers[0].0, headers[0].1) + headers_block_spec(rest)
                =~= headers_block_spec(rest));
        } else {
            let kept = te_kept(headers);
            assert(kept =~= seq![headers[0]] + te_kept(rest));
            assert(kept[0] == headers[0]);
            assert(kept.drop_first() =~= te_kept(rest));
            assert(texts_of(kept) == seq![line_text(headers[0])] + texts_of(te_kept(rest)));
            let lt = line_text(headers[0]);
            let ts = texts_of(kept);
            assert(ts[0] == lt);
            assert(ts.drop_first() =~= texts_of(te_kept(rest)));
            assert(crlf_terminated(ts) == lt + "\r\n"@ + crlf_terminated(texts_of(te_kept(rest))));
            assert(header_line_spec(headers[0].0, headers[0].1) + headers_block_spec(rest) =~= lt
                + "\r\n"@ + crlf_terminated(texts_of(te_kept(rest))));
        }
    }
}

/// The first CRLF of `l0 + CRLF + rest` sits right after a clean `l0`.
proof fn lemma_first_crlf_after(l0: Seq<char>, rest: Seq<char>)
    requires
        line_clean(l0),
    ensures
        first_match_from(l0 + ("\r\n"@ + rest), "\r\n"@, 0) == Some(l0.len() as int),
{
    reveal_strlit("\r\n");
    let s = l0 + ("\r\n"@ + rest);
    assert(match_at(s, "\r\n"@, l0.len() as int)) by {
        lemma_match_shift(l0, "\r\n"@ + rest, "\r\n"@, 0);
        assert(("\r\n"@ + rest).subrange(0, 2) =~= "\r\n"@);
    }
    assert forall|k: int| 0 <= k < l0.len() implies !match_at(s, "\r\n"@, k) by {
        if match_at(s, "\r\n"@, k) {
            lemma_match_head(s, "\r\n"@, k);
            assert(s[k] == l0[k]);
        }
    }
    lemma_first_match_is(s, "\r\n"@, 0, l0.len() as int);
}

/// The first CRLFCRLF of a joined block of clean, nonempty lines sits
/// right after the block.
proof fn lemma_first_blank_after(ls: Seq<Seq<char>>, suffix: Seq<char>)
    requires
        ls.len() >= 1,
        forall|i: int| 0 <= i < ls.len() ==> line_clean(#[trigger] ls[i]) && ls[i].len() > 0,
    ensures
        first_match_from(crlf_separated(ls) + ("\r\n\r\n"@ + suffix), "\r\n\r\n"@, 0) == Some(
            crlf_separated(ls).len() as int,
        ),
    decreases ls.len(),
{
    reveal_strlit("\r\n");
    reveal_strlit("\r\n\r\n");
    let sep = crlf_separated(ls);
    let s = sep + ("\r\n\r\n"@ + suffix);
    assert(match_at(s, "\r\n\r\n"@, sep.len() as int)) by {
        lemma_match_shift(sep, "\r\n\r\n"@ + suffix, "\r\n\r\n"@, 0);
        assert(("\r\n\r\n"@ + suffix).subrange(0, 4) =~= "\r\n\r\n"@);
    }
    if ls.len() == 1 {
        assert(sep == ls[0]);
        assert forall|k: int| 0 <= k < sep.len() implies !match_at(s, "\r\n\r\n"@, k) by {
            if match_at(s, "\r\n\r\n"@, k) {
                lemma_match_head(s, "\r\n\r\n"@, k);
                assert(s[k] == ls[0][k]);
            }
        }
        lemma_first_match_is(s, "\r\n\r\n"@, 0, sep.len() as int);
    } else {
        let l0 = ls[0];
        let rest = ls.drop_first();
        let sep2 = crlf_separated(rest);
        lemma_first_blank_after(rest, suffix);
        let s2 = sep2 + ("\r\n\r\n"@ + suffix);
        lemma_first_match_from(s2, "\r\n\r\n"@, 0);
        let head = l0 + "\r\n"@;
        assert(sep == l0 + "\r\n"@ + sep2);
        assert(s =~= head + s2);
        assert forall|k: int| 0 <= k < head.len() + sep2.len() implies !match_at(
            s,
            "\r\n\r\n"@,
            k,
        ) by {
            if match_at(s, "\r\n\r\n"@, k) {
                if k < l0.len() {
                    lemma_match_head(s, "\r\n\r\n"@, k);
                    assert(s[k] == l0[k]);
                } else if k == l0.len() {
                    assert(s.subrange(k, k + 4)[2] == s[k + 2]);
                    assert(s[k + 2] == s2[0]);
                    assert(s2[0] == sep2[0]);
                    assert(rest[0].len() > 0);
                    if rest.len() == 1 {
                        assert(sep2[0] == rest[0][0]);
                    } else {
                        assert(sep2[0] == rest[0][0]);
                    }
                } else if k == l0.len() + 1 {
                    lemma_match_head(s, "\r\n\r\n"@, k);
                    assert(s[k] == head[k]);
                } else {
                    lemma_match_shift(head, s2, "\r\n\r\n"@, k - head.len());
                    assert(match_at(s2, "\r\n\r\n"@, k - head.len()));
                }
            }
        }
        assert(match_at(s, "\r\n\r\n"@, sep.len() as int));
        lemma_first_match_is(s, "\r\n\r\n"@, 0, sep.len() as int);
    }
}

/// Splitting a joined block of clean lines on CRLF gives the lines back.
proof fn lemma_split_separated(ls: Seq<Seq<char>>)
    requires
        ls.len() >= 1,
        forall|i: int| 0 <= i < ls.len() ==> line_clean(#[trigger] ls[i]),
    ensures
        split_seq(crlf_separated(ls), "\r\n"@) == ls,
    decreases ls.len(),
{
    reveal_strlit("\r\n");
    let sep = crlf_separated(ls);
    if ls.len() == 1 {
        assert(sep == ls[0]);
        lemma_first_match_from(sep, "\r\n"@, 0);
        match find_sub_spec(sep, "\r\n"@) {
            None => {
                assert(split_seq(sep, "\r\n"@) =~= ls);
            },
            Some(i) => {
                lemma_match_head(sep, "\r\n"@, i);
                assert(false);
            },
        }
    } else {
        let l0 = ls[0];
        let rest = ls.drop_first();
        let sep2 = crlf_separated(rest);
        assert(sep == l0 + "\r\n"@ + sep2);
        assert(sep =~= l0 + ("\r\n"@ + sep2));
        lemma_first_crlf_after(l0, sep2);
        assert(find_sub_spec(sep, "\r\n"@) == Some(l0.len() as int));
        assert(sep.subrange(0, l0.len() as int) =~= l0);
        assert(sep.subrange(l0.len() as int + 2, sep.len() as int) =~= sep2);
        lemma_split_separated(rest);
        assert(seq![l0] + rest =~= ls);
    }
}

proof fn lemma_texts_len(ps: Seq<(Seq<char>, Seq<char>)>)
    ensures
        texts_of(ps).len() == ps.len(),
    decreases ps.len(),
{
    if ps.len() > 0 {
        lemma_texts_len(ps.drop_first());
    }
}

proof fn lemma_texts_index(ps: Seq<(Seq<char>, Seq<char>)>, i: int)
    requires
        0 <= i < ps.len(),
    ensures
        texts_of(ps).len() == ps.len(),
        texts_of(ps)[i] == line_text(ps[i]),
    decreases i,
{
    lemma_texts_len(ps);
    if i == 0 {
    } else {
        lemma_texts_index(ps.drop_first(), i - 1);
    }
}

/// Parsing one written line gives the name and value back.
proof fn lemma_parse_line(n: Seq<char>, v: Seq<char>)
    requires
        header_name_wf(n),
        header_value_wf(v),
    ensures
        ({
            let line = line_text((n, v));
            &&& first_match_from(line, ":"@, 0) == Some(n.len() as int)
            &&& trim_spec(line.subrange(0, n.len() as int)) == n
            &&& trim_spec(line.subrange(n.len() as int + 1, line.len() as int)) == v
        }),
{
    reveal_strlit(":");
    reveal_strlit(": ");
    reveal_strlit(" ");
    let line = line_text((n, v));
    assert(match_at(line, ":"@, n.len() as int)) by {
        assert(line =~= n + (": "@ + v));
        lemma_match_shift(n, ": "@ + v, ":"@, 0);
        assert((": "@ + v).subrange(0, 1) =~= ":"@);
    }
    assert forall|k: int| 0 <= k < n.len() implies !match_at(line, ":"@, k) by {
        if match_at(line, ":"@, k) {
            lemma_match_head(line, ":"@, k);
            assert(line[k] == n[k]);
        }
    }
    lemma_first_match_is(line, ":"@, 0, n.len() as int);
    assert(line.subrange(0, n.len() as int) =~= n);
    let tail = line.subrange(n.len() as int + 1, line.len() as int);
    assert(tail =~= " "@ + v);
    assert(trim_front(" "@ + v) == trim_front(v)) by {
        assert((" "@ + v).len() > 0);
        assert((" "@ + v)[0] == ' ');
        assert((" "@ + v).drop_first() =~= v);
    }
}

/// Parsing the written lines of well-formed pairs gives the pairs back.
proof fn lemma_parsed_of_texts(ps: Seq<(Seq<char>, Seq<char>)>)
    requires
        forall|i: int|
            0 <= i < ps.len() ==> header_name_wf((#[trigger] ps[i]).0) && header_value_wf(
                ps[i].1,
            ),
    ensures
        parsed_headers(texts_of(ps)) == ps,
    decreases ps.len(),
{
    if ps.len() == 0 {
    } else {
        let ts = texts_of(ps);
        let rest = ps.drop_first();
        assert(ts[0] == line_text(ps[0]));
        assert(ts.drop_first() =~= texts_of(rest));
        lemma_parse_line(ps[0].0, ps[0].1);
        lemma_parsed_of_texts(rest);
        let line = line_text((ps[0].0, ps[0].1));
        let c = ps[0].0.len() as int;
        assert((
            trim_spec(line.subrange(0, c)),
            trim_spec(line.subrange(c + 1, line.len() as int)),
        ) == ps[0]);
        assert(parsed_headers(ts) =~= seq![ps[0]] + rest);
        assert(seq![ps[0]] + rest =~= ps);
    }
}

/// Well-formedness carries over to the kept headers.
proof fn lemma_te_kept_wf(headers: Seq<(Seq<char>, Seq<char>)>)
    requires
        forall|i: int|
            0 <= i < headers.len() ==> header_name_wf((#[trigger] headers[i]).0)
                && header_value_wf(headers[i].1),
    ensures
        forall|i: int|
            0 <= i < te_kept(headers).len() ==> header_name_wf(
                (#[trigger] te_kept(headers)[i]).0,
            ) && header_value_wf(te_kept(headers)[i].1),
    decreases headers.len(),
{
    if headers.len() > 0 {
        lemma_te_kept_wf(headers.drop_first());
        let kept = te_kept(headers);
        assert forall|i: int|
            0 <= i < kept.len() implies header_name_wf((#[trigger] kept[i]).0)
            && header_value_wf(kept[i].1) by {
            if ci_eq(headers[0].0, "transfer-encoding"@) {
                assert(kept[i] == te_kept(headers.drop_first())[i]);
            } else {
                if i == 0 {
                    assert(kept[0] == headers[0]);
                } else {
                    assert(kept[i] == te_kept(headers.drop_first())[i - 1]);
                }
            }
        }
    }
}

/// A declared content length keeps its header in the rebuilt form.
proof fn lemma_cl_kept(headers: Seq<(Seq<char>, Seq<char>)>)
    requires
        has_content_length(headers),
    ensures
        te_kept(headers).len() >= 1,
    decreases headers.len(),
{
    reveal_strlit("content-length");
    reveal_strlit("transfer-encoding");
    let i = choose|i: int|
        0 <= i < headers.len() && ci_eq((#[trigger] headers[i]).0, "content-length"@);
    if i == 0 {
        assert(!ci_eq(headers[0].0, "transfer-encoding"@));
    } else {
        if ci_eq(headers[0].0, "transfer-encoding"@) {
            assert(has_content_length(headers.drop_first())) by {
                assert(headers.drop_first()[i - 1] == headers[i]);
            }
            lemma_cl_kept(headers.drop_first());
        }
    }
}

/// Character-level facts about the fixed texts the builder writes.
proof fn lemma_wire_literals()
    ensures
        line_clean("HTTP/1.1 "@),
        "HTTP/1.1 "@.len() == 9,
        header_name_wf("content-length"@),
        "content-length: "@ == "content-length"@ + ": "@,
        ": "@.len() == 2,
        line_clean(": "@),
{
    reveal_strlit("HTTP/1.1 ");
    reveal_strlit("content-length");
    reveal_strlit("content-length: ");
    reveal_strlit(": ");
    assert("content-length"@ + ": "@ =~= "content-length: "@);
}

/// The injected content-length value is a well-formed header value.
proof fn lemma_dec_value_wf(n: nat)
    ensures
        header_value_wf(dec_str(n)),
        dec_str(n).len() >= 1,
{
    lemma_dec_str_digits(n);
    let d = dec_str(n);
    assert(trim_front(d) == d) by {
        assert(is_digit_char(d[0]));
    }
    assert(trim_back(d) == d) by {
        assert(is_digit_char(d[d.len() - 1]));
    }
}

/// Law (round trip): parsing the rebuilt wire form of a response back
/// reproduces the same status, the same header set — minus the forced
/// `Transfer-Encoding` removal, plus the injected `content-length` when
/// the origin declared none — and the same body.  The inputs are what an
/// HTTP client can actually hand over: status and headers free of line
/// breaks, names nonempty and colon-free, names and values carrying no
/// surrounding blanks.
pub proof fn lemma_response_round_trip(
    status: Seq<char>,
    headers: Seq<(Seq<char>, Seq<char>)>,
    body: Seq<char>,
)
    requires
        line_clean(status),
        forall|i: int|
            0 <= i < headers.len() ==> header_name_wf((#[trigger] headers[i]).0)
                && header_value_wf(headers[i].1),
    ensures
        ({
            let raw = response_raw_spec(status, headers, body);
            &&& resp_ok(raw)
            &&& resp_status_spec(raw) == status
            &&& resp_headers_spec(raw) == round_trip_headers(headers, body)
            &&& body_of(raw) == body
        }),
{
    reveal_strlit("HTTP/1.1 ");
    reveal_strlit("\r\n");
    reveal_strlit("\r\n\r\n");
    reveal_strlit("content-length");
    reveal_strlit("content-length: ");
    reveal_strlit(": ");
    lemma_wire_literals();
    let raw = response_raw_spec(status, headers, body);
    let sl = "HTTP/1.1 "@ + status;
    let rth = round_trip_headers(headers, body);
    let ts = texts_of(rth);
    let all = seq![sl] + ts;
    let clpair = ("content-length"@, dec_str(encode_utf8(body).len() as nat));
    lemma_dec_value_wf(encode_utf8(body).len() as nat);
    lemma_te_kept_wf(headers);
    lemma_block_is_terminated_texts(headers);

    // The written header area is the terminated texts of the round-trip
    // pairs.
    if has_content_length(headers) {
        assert(rth =~= te_kept(headers));
        lemma_cl_kept(headers);
        assert(headers_block_spec(headers) + content_length_patch(headers, body)
            =~= crlf_terminated(ts));
        lemma_texts_len(rth);
        assert(ts.len() >= 1);
    } else {
        assert(rth == te_kept(headers) + seq![clpair]);
        lemma_texts_of_append(te_kept(headers), seq![clpair]);
        assert(texts_of(seq![clpair]) =~= seq![line_text(clpair)]) by {
            assert(seq![clpair].drop_first() =~= Seq::<(Seq<char>, Seq<char>)>::empty());
            assert(texts_of(Seq::<(Seq<char>, Seq<char>)>::empty()) =~= Seq::<Seq<char>>::empty());
            assert(seq![clpair][0] == clpair);
            assert(texts_of(seq![clpair]) == seq![line_text(clpair)] + texts_of(
                seq![clpair].drop_first(),
            ));
        }
        lemma_crlf_terminated_append(texts_of(te_kept(headers)), seq![line_text(clpair)]);
        assert(crlf_terminated(seq![line_text(clpair)]) =~= line_text(clpair) + "\r\n"@) by {
            assert(seq![line_text(clpair)].drop_first() =~= Seq::<Seq<char>>::empty());
            assert(crlf_terminated(Seq::<Seq<char>>::empty()) =~= Seq::<char>::empty());
            assert(seq![line_text(clpair)][0] == line_text(clpair));
            assert(crlf_terminated(seq![line_text(clpair)]) == seq![line_text(clpair)][0] + "\r\n"@
                + crlf_terminated(seq![line_text(clpair)].drop_first()));
        }
        assert(line_text(clpair) =~= "content-length: "@ + dec_str(
            encode_utf8(body).len() as nat,
        ));
        assert(headers_block_spec(headers) + content_length_patch(headers, body)
            =~= crlf_terminated(ts));
        lemma_texts_len(rth);
        assert(ts.len() >= 1);
    }
    lemma_crlf_terminated_separated(ts);

    // Every written pair is well-formed, so every line is clean and
    // nonempty.
    assert forall|i: int|
        0 <= i < rth.len() implies header_name_wf((#[trigger] rth[i]).0) && header_value_wf(
        rth[i].1,
    ) by {
        if i < te_kept(headers).len() {
            assert(rth[i] == te_kept(headers)[i]);
        } else {
            assert(rth[i] == clpair);
        }
    }
    assert forall|i: int|
        0 <= i < all.len() implies line_clean(#[trigger] all[i]) && all[i].len() > 0 by {
        if i == 0 {
            assert(all[0] == sl);
            assert forall|k: int| 0 <= k < sl.len() implies sl[k] != '\r' && sl[k] != '\n' by {
                if k < 9 {
                    assert(sl[k] == "HTTP/1.1 "@[k]);
                } else {
                    assert(sl[k] == status[k - 9]);
                }
            }
        } else {
            lemma_texts_index(rth, i - 1);
            assert(all[i] == line_text(rth[i - 1]));
            let p = rth[i - 1];
            let lt = line_text(p);
            assert forall|k: int| 0 <= k < lt.len() implies lt[k] != '\r' && lt[k] != '\n' by {
                if k < p.0.len() {
                    assert(lt[k] == p.0[k]);
                } else if k < p.0.len() + 2 {
                    assert(lt[k] == ": "@[k - p.0.len()]);
                } else {
                    assert(lt[k] == p.1[k - p.0.len() - 2]);
                }
            }
        }
    }
    lemma_texts_len(rth);
    assert(all.len() >= 2);
    assert(all[0] == sl);
    assert(all.drop_first() =~= ts);

    // The raw text in line form.
    let sep_ts = crlf_separated(ts);
    let sep_all = crlf_separated(all);
    assert(sep_all == sl + "\r\n"@ + sep_ts);
    let bp = headers_block_spec(headers) + content_length_patch(headers, body);
    assert(bp == sep_ts + "\r\n"@);
    assert(raw =~= (sl + "\r\n"@) + (bp + ("\r\n"@ + body)));
    assert((sl + "\r\n"@) + ((sep_ts + "\r\n"@) + ("\r\n"@ + body)) =~= ((sl + "\r\n"@) + sep_ts)
        + (("\r\n"@ + "\r\n"@) + body));
    assert("\r\n"@ + "\r\n"@ =~= "\r\n\r\n"@);
    assert(raw =~= sep_all + ("\r\n\r\n"@ + body));

    // Positions of the structural breaks.
    lemma_first_blank_after(all, body);
    assert(first_match_from(raw, "\r\n\r\n"@, 0) == Some(sep_all.len() as int));
    lemma_first_match_from(raw, "\r\n\r\n"@, 0);
    let he = sep_all.len() as int;
    assert(head_end(raw) == he);
    assert(body_of(raw) =~= body);

    let tail = sep_ts + ("\r\n\r\n"@ + body);
    assert(raw =~= sl + ("\r\n"@ + tail));
    assert(line_clean(sl));
    lemma_first_crlf_after(sl, tail);
    assert(first_match_from(raw, "\r\n"@, 0) == Some(sl.len() as int));
    let le = sl.len() as int;
    assert(line_end(raw, 0) == le);

    // Status.
    assert(resp_ok(raw)) by {
        assert(raw.subrange(0, 9) =~= "HTTP/1.1 "@);
    }
    assert(resp_status_spec(raw) =~= status);

    // Headers.
    assert(le + 2 <= he);
    assert(raw.subrange(le + 2, he) =~= sep_ts);
    lemma_split_separated(ts);
    assert(resp_header_lines(raw) == ts);
    lemma_parsed_of_texts(rth);
    assert(resp_headers_spec(raw) == rth);
}

} // verus!
