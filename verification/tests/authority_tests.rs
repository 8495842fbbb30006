use snare::authority::{generate_cert, load_ca};
use snare::errors::{AuthorityError, MintError};

fn ca_material() -> (String, String) {
    let key = rcgen::KeyPair::generate().unwrap();
    let params = rcgen::CertificateParams::new(Vec::<String>::new()).unwrap();
    let cert = params.self_signed(&key).unwrap();
    (key.serialize_pem(), cert.pem())
}

#[test]
fn load_ca_accepts_valid_material() {
    let (key_pem, cert_pem) = ca_material();
    assert!(load_ca(&key_pem, &cert_pem).is_ok());
}

#[test]
fn load_ca_rejects_bad_key() {
    let (_, cert_pem) = ca_material();
    assert_eq!(
        load_ca("not a key", &cert_pem).err(),
        Some(AuthorityError::InvalidKey)
    );
}

#[test]
fn load_ca_rejects_bad_certificate() {
    let (key_pem, _) = ca_material();
    assert_eq!(
        load_ca(&key_pem, "not a certificate").err(),
        Some(AuthorityError::InvalidCertificate)
    );
}

#[test]
fn minting_binds_the_hostname() {
    let (key_pem, cert_pem) = ca_material();
    let authority = load_ca(&key_pem, &cert_pem).unwrap();
    let leaf = generate_cert("example.com".to_string(), &authority).unwrap();
    assert_eq!(leaf.host, "example.com");
    assert!(!leaf.cert_der.is_empty());
    assert!(!leaf.key_der.is_empty());
}

#[test]
fn minting_twice_shares_nothing() {
    // No caching: two tunnels to the same host get distinct key pairs.
    let (key_pem, cert_pem) = ca_material();
    let authority = load_ca(&key_pem, &cert_pem).unwrap();
    let a = generate_cert("example.com".to_string(), &authority).unwrap();
    let b = generate_cert("example.com".to_string(), &authority).unwrap();
    assert_ne!(a.key_der, b.key_der);
    assert_ne!(a.cert_der, b.cert_der);
}

#[test]
fn minting_rejects_unencodable_hostname() {
    let (key_pem, cert_pem) = ca_material();
    let authority = load_ca(&key_pem, &cert_pem).unwrap();
    // A non-ASCII name cannot be encoded as a subject alternative name.
    assert_eq!(
        generate_cert("exämple.com".to_string(), &authority).err(),
        Some(MintError::InvalidHostname)
    );
}
