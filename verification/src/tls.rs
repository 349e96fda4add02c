//! The certificates that connections to providers use.

use crate::conversation::copy_text;
use crate::text::text_opt;
use vstd::prelude::*;
use vstd::string::*;

verus! {

/// The files of certificates: those of the client, and that of the authority.
#[derive(Debug, PartialEq, Eq)]
pub struct TlsConfig {
    pub client_cert_and_key: Option<(String, String)>,
    pub ca_cert: Option<String>,
}

/// Whether certificates are the ones that are configured.
pub open spec fn configured_tls(
    t: TlsConfig,
    cert: Option<Seq<char>>,
    key: Option<Seq<char>>,
    ca: Option<Seq<char>>,
) -> bool {
    &&& match (cert, key) {
        (Some(c), Some(k)) => t.client_cert_and_key matches Some(p) && p.0@ == c && p.1@ == k,
        _ => t.client_cert_and_key is None,
    }
    &&& text_opt(t.ca_cert) == ca
}

/// Whether this is what the configured certificates come to.
pub open spec fn tls_read(
    cert_path: Option<Seq<char>>,
    key_path: Option<Seq<char>>,
    ca_path: Option<Seq<char>>,
    r: Result<Option<TlsConfig>, String>,
) -> bool {
    match (cert_path, key_path) {
        (Some(_), None) => r matches Err(e) && e@
            == "Client certificate provided (GOOSE_CLIENT_CERT_PATH) but no private key (GOOSE_CLIENT_KEY_PATH)"@,
        (None, Some(_)) => r matches Err(e) && e@
            == "Client private key provided (GOOSE_CLIENT_KEY_PATH) but no certificate (GOOSE_CLIENT_CERT_PATH)"@,
        (cert, key) => if cert is None && ca_path is None {
            r matches Ok(None)
        } else {
            r matches Ok(Some(t)) && configured_tls(t, cert, key, ca_path)
        },
    }
}

/// The certificates that are configured, where any is. A certificate of the client without its
/// key is an error, and so is a key without its certificate.
pub fn provider_tls_config_from_config(
    client_cert_path: &Option<String>,
    client_key_path: &Option<String>,
    ca_cert_path: &Option<String>,
) -> (r: Result<Option<TlsConfig>, String>)
    ensures
        tls_read(
            text_opt(*client_cert_path),
            text_opt(*client_key_path),
            text_opt(*ca_cert_path),
            r,
        ),
{
    let client_cert_and_key = match (client_cert_path, client_key_path) {
        (Some(c), Some(k)) => Some((c.clone(), k.clone())),
        (Some(_), None) => {
            return Err(
                "Client certificate provided (GOOSE_CLIENT_CERT_PATH) but no private key (GOOSE_CLIENT_KEY_PATH)".to_owned(),
            );
        },
        (None, Some(_)) => {
            return Err(
                "Client private key provided (GOOSE_CLIENT_KEY_PATH) but no certificate (GOOSE_CLIENT_CERT_PATH)".to_owned(),
            );
        },
        (None, None) => None,
    };
    if client_cert_and_key.is_none() && ca_cert_path.is_none() {
        return Ok(None);
    }
    Ok(Some(TlsConfig { client_cert_and_key, ca_cert: copy_text(ca_cert_path) }))
}

/// A certificate of the client and its key come together or not at all; whatever is configured is
/// used, and where nothing is there is nothing to use.
pub proof fn law_certificates_come_with_their_keys(
    cert_path: Option<Seq<char>>,
    key_path: Option<Seq<char>>,
    ca_path: Option<Seq<char>>,
    r: Result<Option<TlsConfig>, String>,
)
    requires
        tls_read(cert_path, key_path, ca_path, r),
    ensures
        r is Err <==> (cert_path is Some) != (key_path is Some),
        r matches Ok(None) <==> cert_path is None && key_path is None && ca_path is None,
        r matches Ok(Some(t)) ==> {
            &&& t.client_cert_and_key is Some <==> cert_path is Some
            &&& t.client_cert_and_key matches Some(p) ==> Some(p.0@) == cert_path && Some(p.1@)
                == key_path
            &&& text_opt(t.ca_cert) == ca_path
        },
{
}

} // verus!
