//! The forwarder's planning half: turning a captured (possibly
//! script-rewritten) raw request into an outbound request description.
//!
//! The raw text is split into header block and body; the request line must
//! hold exactly a method, a path and a version; the method is restricted
//! to GET and POST.  The absolute URL is rebuilt from the last `Host`
//! header and the path, assuming HTTPS to the origin.  All other headers
//! are copied except `Host` and `Accept-Encoding` — the latter is stripped
//! to force an identity response body.  The body is attached only for
//! POST.  Actually sending the plan is transport work and stays outside
//! the library; a transport failure is reported as `Upstream` and never
//! fatal to the tunnel.

use vstd::prelude::*;

use crate::codec::{body_of, head_of, parse_header_lines, parsed_headers};
use crate::errors::ForwardError;
use crate::flow::pair_views;
use crate::text::{
    ci_eq, ci_eq_str, find_sub_spec, split_all, split_once_at, split_seq, str_eq, views_of,
    ws_tokens, ws_tokens_spec,
};

verus! {

/// The only two methods the forwarder services.
#[derive(Debug, Clone, Copy, PartialEq, Eq, Structural)]
pub enum Method {
    Get,
    Post,
}

/// Everything the transport needs to replay one request to the origin.
#[derive(Debug, Clone, PartialEq, Eq)]
pub struct ForwardPlan {
    pub method: Method,
    pub url: String,
    pub headers: Vec<(String, String)>,
    pub body: Option<String>,
}

/// The value of the last `Host` header, if any: later occurrences
/// overwrite earlier ones.
pub open spec fn last_host(hs: Seq<(Seq<char>, Seq<char>)>) -> Option<Seq<char>>
    decreases hs.len(),
{
    if hs.len() == 0 {
        None
    } else if ci_eq(hs.last().0, "host"@) {
        Some(hs.last().1)
    } else {
        last_host(hs.drop_last())
    }
}

/// A header goes on the outbound request unless it is `Host` (the URL
/// carries the host) or `Accept-Encoding` (stripped to force an identity
/// body).
pub open spec fn keeps_header(name: Seq<char>) -> bool {
    !ci_eq(name, "host"@) && !ci_eq(name, "accept-encoding"@)
}

/// The headers copied onto the outbound request, in order.
pub open spec fn kept_headers(hs: Seq<(Seq<char>, Seq<char>)>) -> Seq<(Seq<char>, Seq<char>)>
    decreases hs.len(),
{
    if hs.len() == 0 {
        Seq::empty()
    } else {
        (if keeps_header(hs[0].0) {
            seq![hs[0]]
        } else {
            Seq::empty()
        }) + kept_headers(hs.drop_first())
    }
}

/// The absolute URL of the outbound request: rebuilt from host and path
/// when a host is known, the bare path otherwise.
pub open spec fn url_spec(host: Option<Seq<char>>, path: Seq<char>) -> Seq<char> {
    match host {
        Some(h) => "https://"@ + h + path,
        None => path,
    }
}

/// Splitting on a nonempty pattern yields at least one piece.
proof fn lemma_split_seq_nonempty(s: Seq<char>, pat: Seq<char>)
    requires
        pat.len() >= 1,
    ensures
        split_seq(s, pat).len() >= 1,
{
    match find_sub_spec(s, pat) {
        None => {},
        Some(i) => {},
    }
}

/// Plans the forward of one raw request.  Fails with `MalformedRequest`
/// when there is no blank line or no three-token request line, and with
/// `UnsupportedMethod` for any method but GET and POST.
pub fn plan_forward(raw: &str) -> (r: Result<ForwardPlan, ForwardError>)
    ensures
        find_sub_spec(raw@, "\r\n\r\n"@) is None ==> r == Err::<ForwardPlan, ForwardError>(
            ForwardError::MalformedRequest,
        ),
        find_sub_spec(raw@, "\r\n\r\n"@) is Some ==> ({
            let lines = split_seq(head_of(raw@), "\r\n"@);
            let toks = ws_tokens_spec(lines[0]);
            if toks.len() != 3 {
                r == Err::<ForwardPlan, ForwardError>(ForwardError::MalformedRequest)
            } else {
                let hs = parsed_headers(lines.drop_first());
                if toks[0] == "GET"@ || toks[0] == "POST"@ {
                    &&& r is Ok
                    &&& r->Ok_0.method == (if toks[0] == "GET"@ {
                        Method::Get
                    } else {
                        Method::Post
                    })
                    &&& r->Ok_0.url@ == url_spec(last_host(hs), toks[1])
                    &&& pair_views(r->Ok_0.headers@) == kept_headers(hs)
                    &&& (match r->Ok_0.body {
                        Some(b) => toks[0] == "POST"@ && b@ == body_of(raw@),
                        None => toks[0] == "GET"@,
                    })
                } else {
                    r == Err::<ForwardPlan, ForwardError>(ForwardError::UnsupportedMethod)
                }
            }
        }),
{
    proof {
        reveal_strlit("\r\n");
        reveal_strlit("\r\n\r\n");
        reveal_strlit(":");
    }
    let (head, body) = match split_once_at(raw, "\r\n\r\n") {
        Some(p) => p,
        None => {
            return Err(ForwardError::MalformedRequest);
        },
    };
    let lines = split_all(head.as_str(), "\r\n");
    proof {
        lemma_split_seq_nonempty(head@, "\r\n"@);
        assert(views_of(lines@)[0] == lines@[0]@);
    }
    let toks = ws_tokens(lines[0].as_str());
    if toks.len() != 3 {
        return Err(ForwardError::MalformedRequest);
    }
    proof {
        assert(views_of(toks@)[0] == toks@[0]@);
        assert(views_of(toks@)[1] == toks@[1]@);
    }
    let is_get = str_eq(toks[0].as_str(), "GET");
    let is_post = if is_get {
        false
    } else {
        str_eq(toks[0].as_str(), "POST")
    };
    if !is_get && !is_post {
        return Err(ForwardError::UnsupportedMethod);
    }
    let ghost line_views = views_of(lines@);
    let ghost hs = parsed_headers(line_views.drop_first());
    // Parse the header lines after the request line.
    let parsed = parse_header_lines(&lines, 1);
    proof {
        assert(line_views.skip(1) =~= line_views.drop_first());
    }
    // The last Host header wins.
    let m = parsed.len();
    let mut host: Option<String> = None;
    let mut j: usize = 0;
    proof {
        assert(pair_views(parsed@).take(0) =~= Seq::<(Seq<char>, Seq<char>)>::empty());
    }
    while j < m
        invariant
            m == parsed@.len(),
            j <= m,
            hs == pair_views(parsed@),
            match host {
                Some(h) => last_host(hs.take(j as int)) == Some(h@),
                None => last_host(hs.take(j as int)) is None,
            },
        decreases m - j,
    {
        proof {
            assert(hs.take(j + 1).drop_last() =~= hs.take(j as int));
            assert(hs.take(j + 1).last() == hs[j as int]);
            assert(hs[j as int] == (parsed@[j as int].0@, parsed@[j as int].1@));
        }
        if ci_eq_str(parsed[j].0.as_str(), "host") {
            host = Some(parsed[j].1.clone());
        }
        j += 1;
    }
    proof {
        assert(hs.take(m as int) =~= hs);
    }
    // Copy every header except Host and Accept-Encoding.
    let mut kept: Vec<(String, String)> = Vec::new();
    let mut k: usize = 0;
    proof {
        assert(hs.skip(0) =~= hs);
        assert(pair_views(kept@) =~= Seq::<(Seq<char>, Seq<char>)>::empty());
    }
    while k < m
        invariant
            m == parsed@.len(),
            k <= m,
            hs == pair_views(parsed@),
            kept_headers(hs) == pair_views(kept@) + kept_headers(hs.skip(k as int)),
        decreases m - k,
    {
        let ghost rest = hs.skip(k as int);
        proof {
            assert(rest[0] == hs[k as int]);
            assert(rest.drop_first() =~= hs.skip(k + 1));
            assert(hs[k as int] == (parsed@[k as int].0@, parsed@[k as int].1@));
        }
        let keep = !ci_eq_str(parsed[k].0.as_str(), "host") && !ci_eq_str(
            parsed[k].0.as_str(),
            "accept-encoding",
        );
        if keep {
            let ghost before = kept@;
            let pair = (parsed[k].0.clone(), parsed[k].1.clone());
            kept.push(pair);
            proof {
                assert(pair_views(kept@) =~= pair_views(before).push(
                    (kept@.last().0@, kept@.last().1@),
                ));
                assert(kept_headers(hs) =~= pair_views(kept@) + kept_headers(hs.skip(k + 1)));
            }
        } else {
            proof {
                assert(kept_headers(hs) =~= pair_views(kept@) + kept_headers(hs.skip(k + 1)));
            }
        }
        k += 1;
    }
    proof {
        assert(kept_headers(hs.skip(m as int)) =~= Seq::<(Seq<char>, Seq<char>)>::empty());
        assert(pair_views(kept@) =~= kept_headers(hs));
    }
    // Rebuild the absolute URL.
    let url = match &host {
        Some(h) => {
            let mut u = String::from_str("https://");
            u.append(h.as_str());
            u.append(toks[1].as_str());
            proof {
                assert(u@ =~= "https://"@ + h@ + toks@[1]@);
            }
            u
        },
        None => toks[1].clone(),
    };
    let method = if is_get {
        Method::Get
    } else {
        Method::Post
    };
    let body_opt = if is_post {
        Some(body)
    } else {
        None
    };
    Ok(ForwardPlan { method, url, headers: kept, body: body_opt })
}

} // verus!
