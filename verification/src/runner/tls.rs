//! TLS settings: what the certificate files of a target are good for.

use crate::config::Target;
use crate::text;
use vstd::prelude::*;
use vstd::string::*;

verus! {

/// How the server is verified and what is presented to it.
pub struct TlsPlan<'a> {
    /// The CA file that replaces the public roots.
    pub ca_file: Option<&'a String>,
    /// Whether the server's certificate is verified at all.
    pub verify: bool,
    /// The client's certificate chain and its key, for mutual TLS.
    pub identity: Option<(&'a String, &'a String)>,
}

/// What the TLS settings of a target ask for; nothing when it is plain. The
/// client's identity is independent of whether the server is verified.
pub fn tls_plan(target: &Target) -> (r: Option<TlsPlan<'_>>)
    ensures
        r is Some <==> target.tls,
        r matches Some(p) ==> {
            &&& p.verify == target.tls_verify
            &&& (p.ca_file is Some <==> target.tls_ca_file is Some)
            &&& p.ca_file matches Some(f) ==> *f == target.tls_ca_file->0
            &&& (p.identity is Some <==> target.tls_cert_file is Some && target.tls_key_file is Some)
            &&& p.identity matches Some((c, k)) ==> *c == target.tls_cert_file->0 && *k
                == target.tls_key_file->0
        },
{
    if !target.tls {
        return None;
    }
    let identity = match (&target.tls_cert_file, &target.tls_key_file) {
        (Some(c), Some(k)) => Some((c, k)),
        _ => None,
    };
    let ca_file = match &target.tls_ca_file {
        Some(f) => Some(f),
        None => None,
    };
    Some(TlsPlan { ca_file, verify: target.tls_verify, identity })
}

/// What is wrong with a CA file, in words, once its certificates were handed
/// to the root store.
pub open spec fn ca_fault(path: Seq<char>, certs: nat, added: nat, ignored: nat) -> Option<Seq<char>> {
    if certs == 0 {
        Some("tls_ca_file "@ + path + " contains no certificates"@)
    } else if added == 0 {
        Some(
            "tls_ca_file "@ + path + " contains no usable CA certificates ("@ + text::decimal(ignored)
                + " rejected)"@,
        )
    } else {
        None
    }
}

/// What a CA file that is used is warned about, in words.
pub open spec fn ca_warning(path: Seq<char>, added: nat, ignored: nat) -> Option<Seq<char>> {
    if ignored > 0 {
        Some(
            "tls_ca_file "@ + path + ": "@ + text::decimal(ignored) + " certificate(s) rejected, "@
                + text::decimal(added) + " loaded"@,
        )
    } else {
        None
    }
}

/// Judges a CA file of `certs` certificates, of which the root store took
/// `added` and refused `ignored`. A file that yields nothing is refused: an
/// empty root store would fail every handshake with an opaque error. Otherwise
/// returns what there is to warn about.
pub fn check_ca(path: &str, certs: usize, added: usize, ignored: usize) -> (r: Result<
    Option<String>,
    String,
>)
    ensures
        match r {
            Err(e) => ca_fault(path@, certs as nat, added as nat, ignored as nat) == Some(e@),
            Ok(w) => {
                &&& ca_fault(path@, certs as nat, added as nat, ignored as nat) is None
                &&& match w {
                    Some(w) => ca_warning(path@, added as nat, ignored as nat) == Some(w@),
                    None => ca_warning(path@, added as nat, ignored as nat) is None,
                }
            },
        },
{
    let mut words = String::from_str("tls_ca_file ");
    words.append(path);
    if certs == 0 {
        words.append(" contains no certificates");
        return Err(words);
    }
    if added == 0 {
        words.append(" contains no usable CA certificates (");
        text::push_decimal(&mut words, ignored as u128);
        words.append(" rejected)");
        return Err(words);
    }
    if ignored > 0 {
        words.append(": ");
        text::push_decimal(&mut words, ignored as u128);
        words.append(" certificate(s) rejected, ");
        text::push_decimal(&mut words, added as u128);
        words.append(" loaded");
        return Ok(Some(words));
    }
    Ok(None)
}

/// `rustls::RootCertStore`, the roots that a server is verified against.
#[verifier::external_type_specification]
#[verifier::external_body]
pub struct ExRootCertStore(rustls::RootCertStore);

/// The bytes of each certificate.
pub open spec fn cert_bytes(certs: Seq<Vec<u8>>) -> Seq<Seq<u8>> {
    certs.map_values(|c: Vec<u8>| c@)
}

/// The store that DER-encoded certificates make, with how many of them it took
/// and how many it refused.
pub uninterp spec fn stored_roots(certs: Seq<Seq<u8>>) -> (rustls::RootCertStore, nat, nat);

/// `RootCertStore::add_parsable_certificates` on an empty store. It takes every
/// certificate that it can parse and counts the others, so the two counts make
/// up the number of certificates. Which ones it can parse depends on their
/// bytes alone; what came of them is named, and nothing else is said of it.
#[verifier::external_body]
fn add_roots(certs: Vec<Vec<u8>>) -> (r: (rustls::RootCertStore, usize, usize))
    ensures
        (r.0, r.1 as nat, r.2 as nat) == stored_roots(cert_bytes(certs@)),
        r.1 + r.2 == certs@.len(),
{
    let mut store = rustls::RootCertStore::empty();
    let ders = certs.into_iter().map(rustls::pki_types::CertificateDer::from);
    let (added, ignored) = store.add_parsable_certificates(ders);
    (store, added, ignored)
}

/// Loads the certificates of a CA file as roots: the store of those that are
/// usable, and what there is to warn about. A file that yields none is refused.
pub fn load_roots(path: &str, certs: Vec<Vec<u8>>) -> (r: Result<
    (rustls::RootCertStore, Option<String>),
    String,
>)
    ensures
        ({
            let (store, added, ignored) = stored_roots(cert_bytes(certs@));
            match r {
                Err(e) => ca_fault(path@, certs@.len(), added, ignored) == Some(e@),
                Ok((s, w)) => {
                    &&& ca_fault(path@, certs@.len(), added, ignored) is None
                    &&& s == store
                    &&& match w {
                        Some(w) => ca_warning(path@, added, ignored) == Some(w@),
                        None => ca_warning(path@, added, ignored) is None,
                    }
                },
            }
        }),
        certs@.len() == 0 ==> r is Err,
{
    let total: usize = certs.len();
    let (store, added, ignored) = add_roots(certs);
    match check_ca(path, total, added, ignored) {
        Ok(warning) => Ok((store, warning)),
        Err(e) => Err(e),
    }
}

/// Judges the client's certificate file: it must hold a chain.
pub fn check_chain(path: &str, certs: usize) -> (r: Result<(), String>)
    ensures
        match r {
            Ok(()) => certs > 0,
            Err(e) => certs == 0 && e@ == "tls_cert_file "@ + path@ + " contains no certificates"@,
        },
{
    if certs > 0 {
        return Ok(());
    }
    let mut words = String::from_str("tls_cert_file ");
    words.append(path);
    words.append(" contains no certificates");
    Err(words)
}

/// A CA file is refused exactly when it yields no root, be it that it holds no
/// certificate or that none is usable; one that is used is warned about exactly
/// when some were refused.
pub proof fn a_ca_file_must_yield_a_root(path: Seq<char>, certs: nat, added: nat, ignored: nat)
    ensures
        ca_fault(path, certs, added, ignored) is None <==> certs > 0 && added > 0,
        ca_warning(path, added, ignored) is Some <==> ignored > 0,
{
}

} // verus!
