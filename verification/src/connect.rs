//! The per-connection CONNECT/TLS handshake state machine.
//!
//! A tunnel starts as a plaintext socket whose first read must be an HTTP
//! `CONNECT host:port` preamble.  The machine extracts the host (the port
//! suffix is stripped), mints a leaf certificate for it, and hands back the
//! literal `200 Connection Established` reply; the caller then performs
//! the TLS server handshake over the same socket and reports its outcome.
//! Every failure closes only this tunnel; the accept loop continues.

use vstd::prelude::*;

use crate::authority::{generate_cert, san_ok, Authority, LeafCert};
use crate::codec::{connect_target, get_domain};
use crate::errors::HandshakeError;
use crate::text::{
    find_sub, first_match_from, lemma_first_match_from, match_at, starts_with_spec,
    starts_with_str, substring_of,
};

verus! {

/// The text before the first colon: a `host:port` target without its port.
pub open spec fn strip_port_spec(s: Seq<char>) -> Seq<char> {
    match first_match_from(s, ":"@, 0) {
        Some(i) => s.subrange(0, i),
        None => s,
    }
}

/// The preamble is a serviceable CONNECT request: it begins with the
/// CONNECT method token and its request line names a target.
pub open spec fn connect_ok(raw: Seq<char>) -> bool {
    starts_with_spec(raw, "CONNECT"@) && connect_target(raw) is Some
}

/// The host a serviceable preamble asks to tunnel to: the named target
/// without its port suffix.
pub open spec fn connect_host_spec(raw: Seq<char>) -> Seq<char> {
    strip_port_spec(connect_target(raw)->0)
}

/// Stripping the port leaves a colon-free prefix of the target, and a
/// target without a colon is kept whole.
pub proof fn lemma_strip_port(s: Seq<char>)
    ensures
        forall|i: int| 0 <= i < strip_port_spec(s).len() ==> strip_port_spec(s)[i] != ':',
        strip_port_spec(s).len() <= s.len(),
        forall|i: int| 0 <= i < strip_port_spec(s).len() ==> strip_port_spec(s)[i] == s[i],
{
    reveal_strlit(":");
    lemma_first_match_from(s, ":"@, 0);
    match first_match_from(s, ":"@, 0) {
        Some(c) => {
            assert forall|i: int| 0 <= i < strip_port_spec(s).len() implies strip_port_spec(s)[i]
                != ':' by {
                assert(strip_port_spec(s) == s.subrange(0, c));
                assert(strip_port_spec(s)[i] == s[i]);
                if s[i] == ':' {
                    assert(s.subrange(i, i + 1) =~= ":"@);
                    assert(match_at(s, ":"@, i));
                    assert(!match_at(s, ":"@, i));
                }
            }
        },
        None => {
            assert forall|i: int| 0 <= i < s.len() implies s[i] != ':' by {
                if s[i] == ':' {
                    assert(s.subrange(i, i + 1) =~= ":"@);
                    assert(match_at(s, ":"@, i));
                    assert(!match_at(s, ":"@, i));
                }
            }
        },
    }
}

/// Law: for every serviceable CONNECT preamble, the host handed to the
/// minter — and so, by [`Handshake::on_connect`]'s contract, the one name
/// the minted leaf certificate is bound to — is exactly the named target
/// up to its first colon: every character of the target before the port
/// separator, no port, nothing added or defaulted.
pub proof fn lemma_connect_host_exact(raw: Seq<char>)
    requires
        connect_ok(raw),
    ensures
        ({
            let host = connect_host_spec(raw);
            let target = connect_target(raw)->0;
            &&& host.len() <= target.len()
            &&& forall|i: int| 0 <= i < host.len() ==> host[i] == target[i]
            &&& forall|i: int| 0 <= i < host.len() ==> host[i] != ':'
            &&& (host.len() < target.len() ==> target[host.len() as int] == ':')
            &&& (host.len() == target.len() ==> forall|i: int|
                0 <= i < target.len() ==> target[i] != ':')
        }),
{
    reveal_strlit(":");
    let target = connect_target(raw)->0;
    lemma_strip_port(target);
    lemma_first_match_from(target, ":"@, 0);
    match first_match_from(target, ":"@, 0) {
        Some(c) => {
            assert(target.subrange(c, c + 1)[0] == target[c]);
        },
        None => {
            assert forall|i: int| 0 <= i < target.len() implies target[i] != ':' by {
                if target[i] == ':' {
                    assert(target.subrange(i, i + 1) =~= ":"@);
                    assert(match_at(target, ":"@, i));
                }
            }
        },
    }
}

/// Cuts a `host:port` target down to its host.
pub fn strip_port(target: &str) -> (r: String)
    ensures
        r@ == strip_port_spec(target@),
{
    proof {
        reveal_strlit(":");
    }
    match find_sub(target, ":") {
        Some(i) => {
            proof {
                lemma_first_match_from(target@, ":"@, 0);
            }
            substring_of(target, 0, i)
        },
        None => target.to_owned(),
    }
}

/// Reads the tunnel host out of a CONNECT preamble: fails with
/// `MalformedConnect` unless the text begins with CONNECT and names a
/// target; otherwise yields the target's host, port stripped.
pub fn parse_connect(raw: &str) -> (r: Result<String, HandshakeError>)
    ensures
        connect_ok(raw@) ==> r is Ok && r->Ok_0@ == connect_host_spec(raw@),
        !connect_ok(raw@) ==> r == Err::<String, HandshakeError>(HandshakeError::MalformedConnect),
{
    if !starts_with_str(raw, "CONNECT") {
        return Err(HandshakeError::MalformedConnect);
    }
    let owned = raw.to_owned();
    match get_domain(&owned) {
        Ok(target) => Ok(strip_port(target.as_str())),
        Err(_) => Err(HandshakeError::MalformedConnect),
    }
}

/// The literal reply written back to the client once the certificate is
/// minted, before the TLS handshake begins.
pub fn connect_established_reply() -> (r: &'static str)
    ensures
        r@ == "HTTP/1.1 200 Connection Established\r\n\r\n"@,
{
    "HTTP/1.1 200 Connection Established\r\n\r\n"
}

/// The state of one inbound connection's handshake.
pub enum Handshake {
    /// Nothing read yet: the next step is the CONNECT preamble.
    AwaitingConnect,
    /// The leaf certificate is minted; the caller must write the
    /// `200 Connection Established` reply and run the TLS handshake with
    /// this certificate.
    Established { host: String, leaf: LeafCert },
    /// Terminal success: the socket now carries HTTP over TLS for `host`.
    Open { host: String },
    /// Terminal failure: the tunnel is closed, the accept loop goes on.
    Failed { error: HandshakeError },
}

impl Handshake {
    /// The host of an established or open handshake.
    pub open spec fn host_spec(&self) -> Seq<char> {
        match self {
            Handshake::Established { host, .. } => host@,
            Handshake::Open { host } => host@,
            _ => Seq::empty(),
        }
    }

    /// A fresh connection.
    pub fn new() -> (r: Handshake)
        ensures
            r is AwaitingConnect,
    {
        Handshake::AwaitingConnect
    }

    /// Consumes the CONNECT preamble: extracts the host and mints a leaf
    /// certificate for it.  On success the certificate is bound to
    /// exactly the preamble's host, port stripped; a malformed preamble
    /// fails the tunnel with `MalformedConnect`, a minting failure with
    /// `CertificateError`.  A host that cannot be encoded as a SAN fails
    /// deterministically; an established handshake means the host was
    /// encodable.
    pub fn on_connect(self, raw: &str, authority: &Authority) -> (r: Handshake)
        requires
            self is AwaitingConnect,
        ensures
            !connect_ok(raw@) ==> r == (Handshake::Failed {
                error: HandshakeError::MalformedConnect,
            }),
            connect_ok(raw@) ==> match r {
                Handshake::Established { host, leaf } => host@ == connect_host_spec(raw@)
                    && leaf.host@ == connect_host_spec(raw@),
                Handshake::Failed { error } => error == HandshakeError::CertificateError,
                _ => false,
            },
            connect_ok(raw@) && !san_ok(connect_host_spec(raw@)) ==> r == (Handshake::Failed {
                error: HandshakeError::CertificateError,
            }),
            r is Established ==> san_ok(connect_host_spec(raw@)),
    {
        match parse_connect(raw) {
            Err(_) => Handshake::Failed { error: HandshakeError::MalformedConnect },
            Ok(host) => {
                match generate_cert(host, authority) {
                    Ok(leaf) => {
                        let host_again = leaf.host.clone();
                        Handshake::Established { host: host_again, leaf }
                    },
                    Err(_) => Handshake::Failed { error: HandshakeError::CertificateError },
                }
            },
        }
    }

    /// Records the outcome of the TLS server handshake the caller ran
    /// with the minted certificate: success opens the tunnel, failure
    /// closes it with `TlsError`.
    pub fn on_tls_result(self, success: bool) -> (r: Handshake)
        requires
            self is Established,
        ensures
            success ==> (r matches Handshake::Open { host } && host@ == self.host_spec()),
            !success ==> r == (Handshake::Failed { error: HandshakeError::TlsError }),
    {
        match self {
            Handshake::Established { host, leaf: _ } => {
                if success {
                    Handshake::Open { host }
                } else {
                    Handshake::Failed { error: HandshakeError::TlsError }
                }
            },
            _ => self,
        }
    }
}

} // verus!
