//! The transport-security configuration builder.
//!
//! From optional PEM blobs for a CA certificate, a client certificate and a
//! client key, the builder produces a transport context for the protocol
//! engine. The trust store always starts from the platform's native roots.
//! A blank (empty or all-whitespace) PEM field counts as absent. All PEM
//! validation happens before the trust store is touched, so a parse failure
//! leaves nothing half-built behind.

use vstd::prelude::*;
use vstd::string::StrSliceExecFns;

use rumqttc::tokio_rustls::rustls::pki_types::CertificateDer;
use rumqttc::tokio_rustls::rustls::pki_types::PrivateKeyDer;
use rumqttc::tokio_rustls::rustls::RootCertStore;

use crate::errors::TlsError;

verus! {

/// The trust store under construction.
#[verifier::external_type_specification]
#[verifier::external_body]
pub struct ExRootCertStore(RootCertStore);

/// A DER-encoded certificate.
#[verifier::external_type_specification]
#[verifier::external_body]
pub struct ExCertificateDer<'a>(CertificateDer<'a>);

/// A DER-encoded private key.
#[verifier::external_type_specification]
#[verifier::external_body]
pub struct ExPrivateKeyDer<'a>(PrivateKeyDer<'a>);

/// Whether the PEM text parses as a (possibly empty) run of certificates.
/// Names the outcome of rustls_pemfile::certs on the text.
pub uninterp spec fn pem_certs_ok(s: Seq<char>) -> bool;

/// The outcome of reading a private key from the PEM text: `None` when the
/// text cannot be read, `Some(false)` when it is well-formed but holds no
/// private key, `Some(true)` when a key is found. Names the outcome of
/// rustls_pemfile::private_key on the text.
pub uninterp spec fn pem_key_outcome(s: Seq<char>) -> Option<bool>;

/// Relies on rustls_pemfile::certs: reads every certificate of the PEM text,
/// failing on the first malformed entry. The outcome depends on the text
/// alone.
#[verifier::external_body]
fn pem_certs(pem: &str) -> (r: Result<Vec<CertificateDer<'static>>, ()>)
    ensures
        r is Ok <==> pem_certs_ok(pem@),
{
    let mut reader = std::io::BufReader::new(pem.as_bytes());
    match rustls_pemfile::certs(&mut reader).collect::<Result<Vec<_>, _>>() {
        Ok(certs) => Ok(certs),
        Err(_) => Err(()),
    }
}

/// Relies on rustls_pemfile::private_key: reads the first private key of the
/// PEM text, if any. The outcome depends on the text alone.
#[verifier::external_body]
fn pem_private_key(pem: &str) -> (r: Result<Option<PrivateKeyDer<'static>>, ()>)
    ensures
        r is Err <==> pem_key_outcome(pem@) is None,
        r matches Ok(k) ==> (k is Some <==> pem_key_outcome(pem@) == Some(true)),
{
    let mut reader = std::io::BufReader::new(pem.as_bytes());
    match rustls_pemfile::private_key(&mut reader) {
        Ok(key) => Ok(key),
        Err(_) => Err(()),
    }
}

/// Relies on rustls::RootCertStore::empty: a trust store with no roots.
#[verifier::external_body]
fn root_store_empty() -> RootCertStore {
    RootCertStore::empty()
}

/// Relies on rustls_native_certs::load_native_certs: the certificates of the
/// platform's native root store; roots that could not be loaded are left out.
#[verifier::external_body]
fn load_native_roots() -> Vec<CertificateDer<'static>> {
    rustls_native_certs::load_native_certs().certs
}

/// Relies on rustls::RootCertStore::add: adds one certificate to the trust
/// store, refusing one whose DER contents cannot be used as a trust anchor.
#[verifier::external_body]
fn root_store_add(store: &mut RootCertStore, cert: CertificateDer<'static>) -> bool {
    store.add(cert).is_ok()
}

/// Whether every certificate of the PEM text is accepted into a trust
/// store. Names the outcome of adding each certificate that
/// rustls_pemfile::certs parses with rustls::RootCertStore::add, which
/// depends on the text alone.
pub uninterp spec fn ca_anchors_ok(s: Seq<char>) -> bool;

/// Relies on rustls_pemfile::certs and rustls::RootCertStore::add: parses
/// every certificate of the text and adds each to the store, failing on the
/// first refusal. The outcome depends on the text alone.
#[verifier::external_body]
fn add_ca_certs(store: &mut RootCertStore, pem: &str) -> (r: bool)
    requires
        pem_certs_ok(pem@),
    ensures
        r == ca_anchors_ok(pem@),
{
    let mut reader = std::io::BufReader::new(pem.as_bytes());
    for cert in rustls_pemfile::certs(&mut reader) {
        let cert = match cert {
            Ok(cert) => cert,
            Err(_) => return false,
        };
        if store.add(cert).is_err() {
            return false;
        }
    }
    true
}

/// Whether the certificate chain and private key parsed from the two texts
/// are accepted as client-authentication material. Names the outcome of
/// rustls::ClientConfig's with_client_auth_cert on that material, which
/// depends on the texts alone.
pub uninterp spec fn auth_config_ok(cert: Seq<char>, key: Seq<char>) -> bool;

/// Relies on rustls::ClientConfig::builder, with_root_certificates and
/// with_no_client_auth: a client configuration that trusts the given store
/// and presents no client certificate.
#[verifier::external_body]
fn client_config_no_auth(store: RootCertStore) -> rumqttc::TlsConfiguration {
    let config = rumqttc::tokio_rustls::rustls::ClientConfig::builder()
        .with_root_certificates(store)
        .with_no_client_auth();
    rumqttc::TlsConfiguration::Rustls(std::sync::Arc::new(config))
}

/// Relies on rustls_pemfile::certs, rustls_pemfile::private_key, and
/// rustls::ClientConfig::builder with with_root_certificates and
/// with_client_auth_cert: parses the chain and the key from the texts and
/// configures client authentication over the given trust store. Whether the
/// pair is accepted depends on the texts alone.
#[verifier::external_body]
fn client_config_with_auth(store: RootCertStore, cert_pem: &str, key_pem: &str) -> (r: Result<
    rumqttc::TlsConfiguration,
    (),
>)
    requires
        pem_certs_ok(cert_pem@),
        pem_key_outcome(key_pem@) == Some(true),
    ensures
        r is Ok <==> auth_config_ok(cert_pem@, key_pem@),
{
    let mut cert_reader = std::io::BufReader::new(cert_pem.as_bytes());
    let parsed = rustls_pemfile::certs(&mut cert_reader).collect::<Result<Vec<_>, _>>();
    let certs: Vec<CertificateDer<'static>> = parsed.map_err(|_| ())?;
    let mut key_reader = std::io::BufReader::new(key_pem.as_bytes());
    let key = rustls_pemfile::private_key(&mut key_reader).ok().flatten().ok_or(())?;
    let builder = rumqttc::tokio_rustls::rustls::ClientConfig::builder().with_root_certificates(store);
    match builder.with_client_auth_cert(certs, key) {
        Ok(config) => Ok(rumqttc::TlsConfiguration::Rustls(std::sync::Arc::new(config))),
        Err(_) => Err(()),
    }
}

/// The characters with the Unicode White_Space property, the set that
/// `str::trim` strips.
pub open spec fn spec_is_whitespace(c: char) -> bool {
    ||| c == '\u{0009}'
    ||| c == '\u{000A}'
    ||| c == '\u{000B}'
    ||| c == '\u{000C}'
    ||| c == '\u{000D}'
    ||| c == ' '
    ||| c == '\u{0085}'
    ||| c == '\u{00A0}'
    ||| c == '\u{1680}'
    ||| ('\u{2000}' <= c && c <= '\u{200A}')
    ||| c == '\u{2028}'
    ||| c == '\u{2029}'
    ||| c == '\u{202F}'
    ||| c == '\u{205F}'
    ||| c == '\u{3000}'
}

/// A text is blank when every character is whitespace; trimming such a text
/// leaves nothing.
pub open spec fn spec_blank(s: Seq<char>) -> bool {
    forall|i: int| 0 <= i < s.len() ==> spec_is_whitespace(#[trigger] s[i])
}

/// A PEM field counts as supplied material only when it is present and not
/// blank.
pub open spec fn spec_supplied(o: Option<String>) -> bool {
    match o {
        Option::None => false,
        Option::Some(s) => !spec_blank(s@),
    }
}

/// What the builder will do: whether a custom CA is added to the trust
/// store, and whether client authentication is configured.
#[derive(Debug, Clone, Copy, PartialEq, Eq, Structural)]
pub struct TlsPlan {
    pub custom_ca: bool,
    pub client_auth: bool,
}

/// The plan the builder follows for the given fields: a custom CA only for a
/// supplied CA field, client authentication only when certificate and key
/// are both supplied.
pub open spec fn spec_tls_plan(
    ca_cert: Option<String>,
    client_cert: Option<String>,
    client_key: Option<String>,
) -> TlsPlan {
    TlsPlan {
        custom_ca: spec_supplied(ca_cert),
        client_auth: spec_supplied(client_cert) && spec_supplied(client_key),
    }
}

fn is_whitespace_char(c: char) -> (r: bool)
    ensures
        r == spec_is_whitespace(c),
{
    c == '\u{0009}' || c == '\u{000A}' || c == '\u{000B}' || c == '\u{000C}' || c == '\u{000D}'
        || c == ' ' || c == '\u{0085}' || c == '\u{00A0}' || c == '\u{1680}'
        || ('\u{2000}' <= c && c <= '\u{200A}') || c == '\u{2028}' || c == '\u{2029}'
        || c == '\u{202F}' || c == '\u{205F}' || c == '\u{3000}'
}

/// Whether the text is empty or all whitespace.
pub fn is_blank(s: &str) -> (r: bool)
    ensures
        r == spec_blank(s@),
{
    let n = s.unicode_len();
    let mut i: usize = 0;
    while i < n
        invariant
            i <= n,
            n == s@.len(),
            forall|j: int| 0 <= j < i ==> spec_is_whitespace(#[trigger] s@[j]),
        decreases n - i,
    {
        if !is_whitespace_char(s.get_char(i)) {
            return false;
        }
        i += 1;
    }
    true
}

fn is_supplied(o: &Option<String>) -> (r: bool)
    ensures
        r == spec_supplied(*o),
{
    match o {
        Option::None => false,
        Option::Some(s) => !is_blank(s.as_str()),
    }
}

/// Decide what the builder will do for the given fields.
pub fn tls_plan(
    ca_cert: &Option<String>,
    client_cert: &Option<String>,
    client_key: &Option<String>,
) -> (p: TlsPlan)
    ensures
        p == spec_tls_plan(*ca_cert, *client_cert, *client_key),
{
    TlsPlan {
        custom_ca: is_supplied(ca_cert),
        client_auth: is_supplied(client_cert) && is_supplied(client_key),
    }
}

/// A blank PEM field steers the builder exactly as an absent one: the plan,
/// and with it every decision of the builder, is the same whether a field is
/// `None` or holds only whitespace.
pub proof fn lemma_blank_field_like_absent(
    blank: String,
    ca_cert: Option<String>,
    client_cert: Option<String>,
    client_key: Option<String>,
)
    requires
        spec_blank(blank@),
    ensures
        spec_tls_plan(Some(blank), client_cert, client_key) == spec_tls_plan(
            None,
            client_cert,
            client_key,
        ),
        spec_tls_plan(ca_cert, Some(blank), client_key) == spec_tls_plan(
            ca_cert,
            None,
            client_key,
        ),
        spec_tls_plan(ca_cert, client_cert, Some(blank)) == spec_tls_plan(
            ca_cert,
            client_cert,
            None,
        ),
{
}

/// Build a transport-security context from optional PEM material.
///
/// The trust store is seeded with the platform's native roots. A supplied CA
/// field must parse and every certificate in it must be accepted into the
/// store. Client authentication is configured only when certificate and key
/// are both supplied; then both must parse, the key PEM must actually hold a
/// private key, and the pair must be accepted. All parsing runs before the
/// trust store is built, and the result is owed exactly when every supplied
/// field passes its step.
#[verifier::loop_isolation(false)]
pub fn build_tls_config(
    ca_cert: &Option<String>,
    client_cert: &Option<String>,
    client_key: &Option<String>,
) -> (r: Result<rumqttc::TlsConfiguration, TlsError>)
    ensures
        ({
            let plan = spec_tls_plan(*ca_cert, *client_cert, *client_key);
            let ca_text = ca_cert->Some_0@;
            let cert_text = client_cert->Some_0@;
            let key_text = client_key->Some_0@;
            let key_out = pem_key_outcome(key_text);
            let pems_ok = (plan.custom_ca ==> pem_certs_ok(ca_text)) && (plan.client_auth ==> (
            pem_certs_ok(cert_text) && key_out == Some(true)));
            let ca_side_ok = plan.custom_ca ==> (pem_certs_ok(ca_text) && ca_anchors_ok(ca_text));
            let auth_side_ok = plan.client_auth ==> (pem_certs_ok(cert_text) && key_out == Some(
                true,
            ) && auth_config_ok(cert_text, key_text));
            &&& (r is Ok <==> ca_side_ok && auth_side_ok)
            &&& (!plan.custom_ca && !plan.client_auth) ==> r is Ok
            &&& (plan.custom_ca && !pem_certs_ok(ca_text)) ==> r == Result::<
                rumqttc::TlsConfiguration,
                TlsError,
            >::Err(TlsError::CertificateParseError)
            &&& (plan.client_auth && (plan.custom_ca ==> pem_certs_ok(ca_text)) && !pem_certs_ok(
                cert_text,
            )) ==> r == Result::<rumqttc::TlsConfiguration, TlsError>::Err(
                TlsError::CertificateParseError,
            )
            &&& (plan.client_auth && (plan.custom_ca ==> pem_certs_ok(ca_text)) && pem_certs_ok(
                cert_text,
            ) && key_out is None) ==> r == Result::<rumqttc::TlsConfiguration, TlsError>::Err(
                TlsError::KeyParseError,
            )
            &&& (plan.client_auth && (plan.custom_ca ==> pem_certs_ok(ca_text)) && pem_certs_ok(
                cert_text,
            ) && key_out == Some(false)) ==> r == Result::<rumqttc::TlsConfiguration, TlsError>::Err(
                TlsError::NoPrivateKeyFound,
            )
            &&& (plan.custom_ca && pems_ok && !ca_anchors_ok(ca_text)) ==> r == Result::<
                rumqttc::TlsConfiguration,
                TlsError,
            >::Err(TlsError::CertificateParseError)
            &&& (r == Result::<rumqttc::TlsConfiguration, TlsError>::Err(
                TlsError::ClientAuthConfigError,
            ) <==> plan.client_auth && pems_ok && ca_side_ok && !auth_config_ok(
                cert_text,
                key_text,
            ))
            &&& r == Result::<rumqttc::TlsConfiguration, TlsError>::Err(
                TlsError::CertificateParseError,
            ) ==> (plan.custom_ca || plan.client_auth)
            &&& r == Result::<rumqttc::TlsConfiguration, TlsError>::Err(TlsError::KeyParseError)
                ==> (plan.client_auth && key_out is None)
            &&& r == Result::<rumqttc::TlsConfiguration, TlsError>::Err(TlsError::NoPrivateKeyFound)
                ==> (plan.client_auth && key_out == Some(false))
        }),
{
    let plan = tls_plan(ca_cert, client_cert, client_key);

    // Validate all supplied PEM material before building anything.
    if plan.custom_ca {
        match ca_cert {
            Option::Some(pem) => match pem_certs(pem.as_str()) {
                Ok(_) => (),
                Err(_) => {
                    return Err(TlsError::CertificateParseError);
                },
            },
            Option::None => {
                return Err(TlsError::CertificateParseError);
            },
        }
    }
    if plan.client_auth {
        match client_cert {
            Option::Some(pem) => match pem_certs(pem.as_str()) {
                Ok(_) => (),
                Err(_) => {
                    return Err(TlsError::CertificateParseError);
                },
            },
            Option::None => {
                return Err(TlsError::CertificateParseError);
            },
        }
        match client_key {
            Option::Some(pem) => match pem_private_key(pem.as_str()) {
                Ok(Some(_)) => (),
                Ok(None) => {
                    return Err(TlsError::NoPrivateKeyFound);
                },
                Err(_) => {
                    return Err(TlsError::KeyParseError);
                },
            },
            Option::None => {
                return Err(TlsError::KeyParseError);
            },
        }
    }

    // Seed the trust store with the native roots; a root the store refuses
    // is skipped, as it never was part of the trust the caller asked for.
    let mut store = root_store_empty();
    let mut native = load_native_roots();
    while native.len() > 0
        decreases native.len(),
    {
        let cert = native.pop().unwrap();
        let _ = root_store_add(&mut store, cert);
    }

    // Add every certificate of a supplied CA field; here a refusal is an
    // error, since the caller asked for exactly this trust.
    if plan.custom_ca {
        match ca_cert {
            Option::Some(pem) => {
                if !add_ca_certs(&mut store, pem.as_str()) {
                    return Err(TlsError::CertificateParseError);
                }
            },
            Option::None => {
                return Err(TlsError::CertificateParseError);
            },
        }
    }

    if plan.client_auth {
        match (client_cert, client_key) {
            (Option::Some(cert_pem), Option::Some(key_pem)) => {
                match client_config_with_auth(store, cert_pem.as_str(), key_pem.as_str()) {
                    Ok(config) => Ok(config),
                    Err(_) => Err(TlsError::ClientAuthConfigError),
                }
            },
            _ => Err(TlsError::ClientAuthConfigError),
        }
    } else {
        Ok(client_config_no_auth(store))
    }
}

} // verus!
