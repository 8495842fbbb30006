//! The certificate authority and the leaf certificate minter.
//!
//! The authority is a long-lived root key pair and certificate, loaded once
//! per process and shared read-only by every connection.  For each tunnel a
//! fresh leaf certificate is minted: a new key pair, certificate parameters
//! whose single subject alternative name and common name both equal the
//! tunnel's target host, signed by the authority.  Nothing is cached:
//! every tunnel re-mints, even to the same host.
//!
//! The cryptography itself is rcgen's; each call into it stands behind a
//! trusted wrapper below.  What the library guarantees is the data flow
//! around those calls: the host recorded in a [`LeafCert`] is exactly the
//! name the parameters were built from.

use vstd::prelude::*;

use crate::errors::{AuthorityError, MintError};

verus! {

#[verifier::external_type_specification]
#[verifier::external_body]
pub struct ExKeyPair(rcgen::KeyPair);

#[verifier::external_type_specification]
#[verifier::external_body]
pub struct ExCertificate(rcgen::Certificate);

#[verifier::external_type_specification]
#[verifier::external_body]
pub struct ExCertificateParams(rcgen::CertificateParams);

#[verifier::external_type_specification]
#[verifier::external_body]
#[verifier::reject_recursive_types(S)]
pub struct ExIssuer<'a, S>(rcgen::Issuer<'a, S>);

#[verifier::external_type_specification]
#[verifier::external_body]
pub struct ExRcgenError(rcgen::Error);

/// The PEM text parses as a private key: whether
/// `rcgen::KeyPair::from_pem` succeeds is a function of the text alone.
pub uninterp spec fn key_pem_ok(pem: Seq<char>) -> bool;

/// Relies on rcgen::KeyPair::from_pem: parses a private key from PEM;
/// it succeeds exactly on the texts that parse, a deterministic function
/// of the text.
#[verifier::external_body]
fn keypair_from_pem(pem: &str) -> (r: Result<rcgen::KeyPair, rcgen::Error>)
    ensures
        r is Ok <==> key_pem_ok(pem@),
{
    rcgen::KeyPair::from_pem(pem)
}

/// The PEM text parses as a CA certificate: whether
/// `rcgen::Issuer::from_ca_cert_pem` succeeds is a function of the
/// certificate text alone.
pub uninterp spec fn ca_cert_pem_ok(pem: Seq<char>) -> bool;

/// Relies on rcgen::Issuer::from_ca_cert_pem: parses a CA certificate
/// from PEM and carries the signing key alongside it.  Success depends
/// on the certificate text alone: rcgen does not check that the
/// certificate pairs with the key, so a mismatched pair is accepted and
/// later signatures simply do not chain to the certificate.
#[verifier::external_body]
fn issuer_from_ca_cert_pem(pem: &str, key: rcgen::KeyPair) -> (r: Result<
    rcgen::Issuer<'static, rcgen::KeyPair>,
    rcgen::Error,
>)
    ensures
        r is Ok <==> ca_cert_pem_ok(pem@),
{
    rcgen::Issuer::from_ca_cert_pem(pem, key)
}

/// The name can be encoded as a subject alternative name: whether
/// `rcgen::CertificateParams::new` accepts it is a function of the name
/// alone (an IP address literal, or a DNS name in the IA5 charset).
pub uninterp spec fn san_ok(name: Seq<char>) -> bool;

/// Relies on rcgen::CertificateParams::new: certificate parameters whose
/// subject alternative names are exactly the given names; it succeeds
/// exactly when every name is SAN-encodable, a deterministic function of
/// the strings.
#[verifier::external_body]
fn params_new(sans: Vec<String>) -> (r: Result<rcgen::CertificateParams, rcgen::Error>)
    ensures
        r is Ok <==> (forall|i: int| 0 <= i < sans@.len() ==> san_ok(#[trigger] sans@[i]@)),
{
    rcgen::CertificateParams::new(sans)
}

/// Relies on rcgen::DistinguishedName::push: adds the common name to the
/// parameters' distinguished name.
#[verifier::external_body]
fn params_with_common_name(
    params: rcgen::CertificateParams,
    domain: &str,
) -> rcgen::CertificateParams {
    let mut p = params;
    p.distinguished_name.push(rcgen::DnType::CommonName, domain.to_owned());
    p
}

/// Relies on rcgen::KeyPair::generate: a fresh key pair.  Nothing can be
/// promised of a randomly generated key.
#[verifier::external_body]
fn keypair_generate() -> Result<rcgen::KeyPair, rcgen::Error> {
    rcgen::KeyPair::generate()
}

/// Relies on rcgen::CertificateParams::signed_by: a certificate carrying
/// these parameters, chained to the issuer and signed by its key.
#[verifier::external_body]
fn sign_params(
    params: &rcgen::CertificateParams,
    key: &rcgen::KeyPair,
    issuer: &rcgen::Issuer<'static, rcgen::KeyPair>,
) -> Result<rcgen::Certificate, rcgen::Error> {
    params.signed_by(key, issuer)
}

/// Relies on rcgen::Certificate::der: the DER encoding of the certificate.
#[verifier::external_body]
fn cert_der_bytes(cert: &rcgen::Certificate) -> Vec<u8> {
    cert.der().to_vec()
}

/// Relies on rcgen::KeyPair::serialize_der: the PKCS#8 DER encoding of the
/// private key.
#[verifier::external_body]
fn key_der_bytes(key: &rcgen::KeyPair) -> Vec<u8> {
    key.serialize_der()
}

/// The long-lived signing authority.  Never mutated after load; if loading
/// fails the process cannot intercept TLS traffic at all.
pub struct Authority {
    issuer: rcgen::Issuer<'static, rcgen::KeyPair>,
}

/// Builds the signing authority from the two PEM texts read from the
/// authority files.  Succeeds exactly when the key parses and the
/// certificate parses; fails with `InvalidKey` exactly when the key does
/// not parse, `InvalidCertificate` exactly when it does but the
/// certificate does not.  Whether the certificate actually pairs with
/// the key is not checked — rcgen accepts a mismatched pair, and leaf
/// signatures then simply do not chain to the certificate.  (`NotFound`
/// is the caller's to report, when a file could not be read at all.)
pub fn load_ca(ca_key_pem: &str, ca_cert_pem: &str) -> (r: Result<Authority, AuthorityError>)
    ensures
        r is Ok <==> key_pem_ok(ca_key_pem@) && ca_cert_pem_ok(ca_cert_pem@),
        r == Err::<Authority, AuthorityError>(AuthorityError::InvalidKey) <==> !key_pem_ok(
            ca_key_pem@,
        ),
        r == Err::<Authority, AuthorityError>(AuthorityError::InvalidCertificate) <==> (
        key_pem_ok(ca_key_pem@) && !ca_cert_pem_ok(ca_cert_pem@)),
{
    let key = match keypair_from_pem(ca_key_pem) {
        Ok(k) => k,
        Err(_) => {
            return Err(AuthorityError::InvalidKey);
        },
    };
    match issuer_from_ca_cert_pem(ca_cert_pem, key) {
        Ok(issuer) => Ok(Authority { issuer }),
        Err(_) => Err(AuthorityError::InvalidCertificate),
    }
}

/// A per-tunnel leaf certificate: bound to exactly one hostname, signed by
/// the authority, dropped when the tunnel closes.
pub struct LeafCert {
    /// The single hostname the certificate is bound to: its subject
    /// alternative name and common name.
    pub host: String,
    /// DER encoding of the certificate.
    pub cert_der: Vec<u8>,
    /// PKCS#8 DER encoding of its private key.
    pub key_der: Vec<u8>,
}

/// Mints a fresh leaf certificate for one hostname: a new key pair, one
/// subject alternative name and a common name both equal to `domain`,
/// signed by the authority.  Fails with `InvalidHostname` exactly when
/// the name cannot be encoded as a SAN; `SigningError` marks a
/// cryptographic failure, which only the crypto provider decides.
pub fn generate_cert(domain: String, authority: &Authority) -> (r: Result<LeafCert, MintError>)
    ensures
        r is Ok ==> r->Ok_0.host@ == domain@,
        r is Ok ==> san_ok(domain@),
        r == Err::<LeafCert, MintError>(MintError::InvalidHostname) <==> !san_ok(domain@),
        r is Err ==> (r->Err_0 == MintError::InvalidHostname || r->Err_0
            == MintError::SigningError),
{
    let mut sans: Vec<String> = Vec::new();
    sans.push(domain.clone());
    proof {
        assert(sans@.len() == 1);
        assert(sans@[0]@ == domain@);
    }
    let ghost sans_view = sans@;
    let params = match params_new(sans) {
        Ok(p) => {
            proof {
                assert(san_ok(sans_view[0]@));
            }
            p
        },
        Err(_) => {
            proof {
                assert(!san_ok(domain@)) by {
                    if san_ok(domain@) {
                        assert(forall|i: int|
                            0 <= i < sans_view.len() ==> san_ok(#[trigger] sans_view[i]@));
                    }
                }
            }
            return Err(MintError::InvalidHostname);
        },
    };
    let params = params_with_common_name(params, domain.as_str());
    let key = match keypair_generate() {
        Ok(k) => k,
        Err(_) => {
            return Err(MintError::SigningError);
        },
    };
    let cert = match sign_params(&params, &key, &authority.issuer) {
        Ok(c) => c,
        Err(_) => {
            return Err(MintError::SigningError);
        },
    };
    let cert_der = cert_der_bytes(&cert);
    let key_der = key_der_bytes(&key);
    Ok(LeafCert { host: domain, cert_der, key_der })
}

} // verus!
