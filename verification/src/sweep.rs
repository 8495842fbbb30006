//! Decision logic of the two sweep workers: the bounded-concurrency
//! directory probe and the credential sweep.
//!
//! The workers themselves are plain fan-out I/O and live outside the
//! library; everything they decide is here: which attack a name selects,
//! how one credential pair becomes a request, which responses count as a
//! hit, the user/password cross product, and the URL arithmetic of the
//! directory probe.

use base64::Engine;
use vstd::prelude::*;

use crate::flow::pair_views;
use crate::forward::Method;
use crate::text::{str_eq, trim_spec, trim_str, views_of};
use vstd::utf8::encode_utf8;

verus! {

/// How the credential sweep authenticates: an HTML form post or HTTP
/// Basic authentication.
#[derive(Debug, Clone, Copy, PartialEq, Eq, Structural)]
pub enum AttackType {
    Form,
    Basic,
}

/// Selects the attack named by the operator; anything unrecognized falls
/// back to Basic.
pub fn parse_attack_type(name: &str) -> (r: AttackType)
    ensures
        r == (if name@ == "form"@ {
            AttackType::Form
        } else {
            AttackType::Basic
        }),
{
    if str_eq(name, "form") {
        AttackType::Form
    } else {
        AttackType::Basic
    }
}

/// The method each attack uses: a form is posted, Basic credentials ride
/// on a plain GET.
pub fn attack_method(attack: AttackType) -> (r: Method)
    ensures
        r == (if attack == AttackType::Form {
            Method::Post
        } else {
            Method::Get
        }),
{
    match attack {
        AttackType::Form => Method::Post,
        AttackType::Basic => Method::Get,
    }
}

/// The standard-alphabet, padded base64 rendering of a byte sequence.
pub uninterp spec fn base64_standard_of(bytes: Seq<u8>) -> Seq<char>;

/// Relies on base64's `BASE64_STANDARD` engine: the padded
/// standard-alphabet encoding, four characters for every three bytes
/// begun, a function of the input bytes alone.  The length bound keeps the
/// engine's internal buffer arithmetic from overflowing.
#[verifier::external_body]
fn base64_encode(data: &str) -> (r: String)
    requires
        4 * encode_utf8(data@).len() + 8 <= usize::MAX,
    ensures
        r@ == base64_standard_of(encode_utf8(data@)),
        r@.len() == 4 * ((encode_utf8(data@).len() + 2) / 3),
{
    base64::prelude::BASE64_STANDARD.encode(data.as_bytes())
}

/// The body of a form-based credential attempt.
pub open spec fn form_body_spec(user: Seq<char>, pass: Seq<char>) -> Seq<char> {
    "username="@ + user + "&password="@ + pass
}

/// The value of the Authorization header of a Basic attempt.
pub open spec fn basic_credential_spec(user: Seq<char>, pass: Seq<char>) -> Seq<char> {
    "Basic "@ + base64_standard_of(encode_utf8(user + ":"@ + pass))
}

/// One credential attempt, ready for the transport.
#[derive(Debug, Clone)]
pub struct AttackRequest {
    pub method: Method,
    pub url: String,
    pub headers: Vec<(String, String)>,
    pub body: Option<String>,
}

/// Builds the request for one user/password pair.  A form attack posts
/// `username=..&password=..` with the form content type; a Basic attack
/// sends a GET under an `Authorization: Basic` header.  (The length bound
/// is a machine limit of the base64 engine, far beyond any credential.)
pub fn build_attack_request(url: &str, user: &str, pass: &str, attack: AttackType) -> (r:
    AttackRequest)
    requires
        4 * encode_utf8(user@ + ":"@ + pass@).len() + 8 <= usize::MAX,
    ensures
        r.url@ == url@,
        r.method == (if attack == AttackType::Form {
            Method::Post
        } else {
            Method::Get
        }),
        attack == AttackType::Form ==> (match r.body {
            Some(b) => b@ == form_body_spec(user@, pass@),
            None => false,
        }) && pair_views(r.headers@) =~= seq![
            ("Content-Type"@, "application/x-www-form-urlencoded"@),
        ],
        attack == AttackType::Basic ==> r.body is None && pair_views(r.headers@) =~= seq![
            ("Authorization"@, basic_credential_spec(user@, pass@)),
        ],
{
    let method = attack_method(attack);
    let mut headers: Vec<(String, String)> = Vec::new();
    match attack {
        AttackType::Form => {
            let mut body = String::from_str("username=");
            body.append(user);
            body.append("&password=");
            body.append(pass);
            proof {
                assert(body@ =~= form_body_spec(user@, pass@));
            }
            headers.push(
                (
                    String::from_str("Content-Type"),
                    String::from_str("application/x-www-form-urlencoded"),
                ),
            );
            AttackRequest { method, url: url.to_owned(), headers, body: Some(body) }
        },
        AttackType::Basic => {
            let mut joined = user.to_owned();
            joined.append(":");
            joined.append(pass);
            proof {
                assert(joined@ =~= user@ + ":"@ + pass@);
            }
            let encoded = base64_encode(joined.as_str());
            let mut value = String::from_str("Basic ");
            value.append(encoded.as_str());
            proof {
                assert(value@ =~= basic_credential_spec(user@, pass@));
            }
            headers.push((String::from_str("Authorization"), value));
            AttackRequest { method, url: url.to_owned(), headers, body: None }
        },
    }
}

/// A response counts as a credential hit when its status is a success or
/// a redirection.
pub open spec fn credential_hit(status: u16) -> bool {
    200 <= status < 400
}

/// The sweep's verdict on one attempt: the pair is reported exactly when
/// the origin answered with a success or a redirection.
pub fn classify_attack_response(status: u16, user: &str, pass: &str) -> (r: Option<
    (String, String),
>)
    ensures
        match r {
            Some(p) => credential_hit(status) && p.0@ == user@ && p.1@ == pass@,
            None => !credential_hit(status),
        },
{
    if 200 <= status && status < 400 {
        Some((user.to_owned(), pass.to_owned()))
    } else {
        None
    }
}

/// One user's attempts: that user paired with every password, in order.
pub open spec fn pair_row(user: Seq<char>, passwords: Seq<Seq<char>>) -> Seq<
    (Seq<char>, Seq<char>),
>
    decreases passwords.len(),
{
    if passwords.len() == 0 {
        Seq::empty()
    } else {
        seq![(user, passwords[0])] + pair_row(user, passwords.drop_first())
    }
}

/// Every user paired with every password: users outermost, both in input
/// order.
pub open spec fn cross_pairs(users: Seq<Seq<char>>, passwords: Seq<Seq<char>>) -> Seq<
    (Seq<char>, Seq<char>),
>
    decreases users.len(),
{
    if users.len() == 0 {
        Seq::empty()
    } else {
        pair_row(users[0], passwords) + cross_pairs(users.drop_first(), passwords)
    }
}

/// The full list of attempts the credential sweep fans out: the cross
/// product of the two wordlists.
pub fn attack_pairs(users: &Vec<String>, passwords: &Vec<String>) -> (r: Vec<(String, String)>)
    ensures
        pair_views(r@) == cross_pairs(views_of(users@), views_of(passwords@)),
{
    let ghost uv = views_of(users@);
    let ghost pv = views_of(passwords@);
    let mut out: Vec<(String, String)> = Vec::new();
    let n = users.len();
    let m = passwords.len();
    let mut i: usize = 0;
    proof {
        assert(uv.skip(0) =~= uv);
        assert(pair_views(out@) =~= Seq::<(Seq<char>, Seq<char>)>::empty());
    }
    while i < n
        invariant
            n == users@.len(),
            m == passwords@.len(),
            i <= n,
            uv == views_of(users@),
            pv == views_of(passwords@),
            cross_pairs(uv, pv) == pair_views(out@) + cross_pairs(uv.skip(i as int), pv),
        decreases n - i,
    {
        let ghost urest = uv.skip(i as int);
        proof {
            assert(urest[0] == uv[i as int]);
            assert(urest.drop_first() =~= uv.skip(i + 1));
            assert(pv.skip(0) =~= pv);
        }
        let mut j: usize = 0;
        while j < m
            invariant
                n == users@.len(),
                m == passwords@.len(),
                i < n,
                j <= m,
                uv == views_of(users@),
                pv == views_of(passwords@),
                urest == uv.skip(i as int),
                urest[0] == uv[i as int],
                urest.drop_first() =~= uv.skip(i + 1),
                cross_pairs(uv, pv) == pair_views(out@) + pair_row(uv[i as int], pv.skip(
                    j as int,
                )) + cross_pairs(uv.skip(i + 1), pv),
            decreases m - j,
        {
            let ghost prest = pv.skip(j as int);
            proof {
                assert(prest[0] == pv[j as int]);
                assert(prest.drop_first() =~= pv.skip(j + 1));
                assert(pv[j as int] == passwords@[j as int]@);
                assert(uv[i as int] == users@[i as int]@);
            }
            let ghost before = out@;
            out.push((users[i].clone(), passwords[j].clone()));
            proof {
                assert(pair_views(out@) =~= pair_views(before).push(
                    (out@.last().0@, out@.last().1@),
                ));
                assert(pair_views(out@) + pair_row(uv[i as int], pv.skip(j + 1)) =~= pair_views(
                    before,
                ) + pair_row(uv[i as int], pv.skip(j as int)));
            }
            j += 1;
        }
        proof {
            assert(pair_row(uv[i as int], pv.skip(m as int)) =~= Seq::<(Seq<char>, Seq<char>)>::empty());
            assert(pair_views(out@) + pair_row(uv[i as int], pv.skip(m as int)) =~= pair_views(
                out@,
            ));
        }
        i += 1;
    }
    proof {
        assert(cross_pairs(uv.skip(n as int), pv) =~= Seq::<(Seq<char>, Seq<char>)>::empty());
        assert(pair_views(out@) =~= cross_pairs(uv, pv));
    }
    out
}

/// One trailing slash is dropped from the probed host, as the probe joins
/// host and candidate with a slash of its own.
pub open spec fn normalize_host_spec(host: Seq<char>) -> Seq<char> {
    if host.len() > 0 && host.last() == '/' {
        host.drop_last()
    } else {
        host
    }
}

/// Drops one trailing slash from the probed host.
pub fn normalize_host(host: &str) -> (r: String)
    ensures
        r@ == normalize_host_spec(host@),
{
    let n = host.unicode_len();
    if n > 0 && host.get_char(n - 1) == '/' {
        let r = crate::text::substring_of(host, 0, n - 1);
        proof {
            assert(host@.subrange(0, n - 1) =~= host@.drop_last());
        }
        r
    } else {
        host.to_owned()
    }
}

/// The URL probed for one wordlist candidate.
pub fn probe_url(host: &str, dir: &str) -> (r: String)
    ensures
        r@ == host@ + "/"@ + dir@,
{
    let mut url = host.to_owned();
    url.append("/");
    url.append(dir);
    url
}

/// The statuses under which a probed directory is reported: OK, Created,
/// Accepted, Moved Permanently, Forbidden.
pub open spec fn accepted_status(code: u16) -> bool {
    code == 200 || code == 201 || code == 202 || code == 301 || code == 403
}

/// Whether a probe response is reported to the operator.
pub fn is_accepted_status(code: u16) -> (r: bool)
    ensures
        r == accepted_status(code),
{
    code == 200 || code == 201 || code == 202 || code == 301 || code == 403
}

/// The candidate a wordlist line contributes: the line with surrounding
/// blanks stripped, skipped entirely when nothing remains.
pub fn next_candidate(line: &str) -> (r: Option<String>)
    ensures
        match r {
            Some(d) => trim_spec(line@).len() > 0 && d@ == trim_spec(line@),
            None => trim_spec(line@).len() == 0,
        },
{
    let t = trim_str(line);
    if t.as_str().unicode_len() == 0 {
        None
    } else {
        Some(t)
    }
}

} // verus!
