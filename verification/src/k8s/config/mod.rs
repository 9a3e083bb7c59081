//! The configuration of the Kubernetes client: which credentials and TLS settings to
//! use, and where requests go.
pub mod kube_config;
pub mod utils;

use crate::headers::{basic_text, basic_value, bearer_text, bearer_value};
use crate::outside::is_header_value;
use kube_config::{AuthInfo, Cluster, KubeConfigError};
use vstd::prelude::*;
use vstd::string::*;

verus! {

/// How the client authenticates.
#[derive(Debug, Clone)]
pub enum AuthChoice {
    /// With OAuth2 tokens of the Google service account named by
    /// `GOOGLE_APPLICATION_CREDENTIALS`
    ServiceAccount,
    /// With this basic `Authorization` header value on every request
    Basic(String),
}

/// Chooses how the client authenticates: with the service account when the user's
/// token could be had, else with basic authentication when the user has a name and a
/// password, else not at all, which is an error.
pub fn choose_auth(token_available: bool, user: &AuthInfo) -> (r: Result<AuthChoice, KubeConfigError>)
    ensures
        token_available ==> r matches Ok(AuthChoice::ServiceAccount),
        !token_available ==> match (user.username, user.password) {
            (Some(u), Some(p)) => if is_header_value(basic_text(u@, p@)) {
                r matches Ok(AuthChoice::Basic(v)) && v@ == basic_text(u@, p@)
            } else {
                r matches Err(KubeConfigError::InvalidHeader)
            },
            _ => r matches Err(KubeConfigError::NoAuthProvider),
        },
{
    if token_available {
        return Ok(AuthChoice::ServiceAccount);
    }
    match (&user.username, &user.password) {
        (Some(u), Some(p)) => match basic_value(u.as_str(), p.as_str()) {
            Some(v) => Ok(AuthChoice::Basic(v)),
            None => Err(KubeConfigError::InvalidHeader),
        },
        _ => Err(KubeConfigError::NoAuthProvider),
    }
}

/// How the client sets up TLS.
#[derive(Debug, Clone, Copy, PartialEq, Eq, Structural)]
pub enum TlsChoice {
    /// Present the user's client certificate
    Identity,
    /// Accept any server certificate
    AcceptInvalidCerts,
    /// Neither
    Plain,
}

/// Chooses the TLS setup: the client certificate when one could be made, and as a last
/// resort, only when the cluster asks for it, accepting invalid server certificates.
pub fn choose_tls(identity_available: bool, cluster: &Cluster) -> (r: TlsChoice)
    ensures
        r == if identity_available {
            TlsChoice::Identity
        } else if cluster.insecure_skip_tls_verify == Some(true) {
            TlsChoice::AcceptInvalidCerts
        } else {
            TlsChoice::Plain
        },
{
    if identity_available {
        TlsChoice::Identity
    } else {
        match cluster.insecure_skip_tls_verify {
            Some(true) => TlsChoice::AcceptInvalidCerts,
            _ => TlsChoice::Plain,
        }
    }
}

/// The `Authorization` header value of a client running inside a cluster: `Bearer`
/// and the service account's token.
pub fn incluster_authorization(token: &str) -> (r: Result<String, KubeConfigError>)
    ensures
        match r {
            Ok(v) => v@ == bearer_text(token@) && is_header_value(v@),
            Err(e) => !is_header_value(bearer_text(token@)) && e == KubeConfigError::InvalidHeader,
        },
{
    match bearer_value(token) {
        Some(v) => Ok(v),
        None => Err(KubeConfigError::InvalidHeader),
    }
}

/// The URL of a request: the cluster's server followed by the request's path and query.
pub fn request_url(base_path: &str, path_and_query: &str) -> (r: String)
    ensures
        r@ == base_path@ + path_and_query@,
{
    let mut r = base_path.to_owned();
    r.append(path_and_query);
    r
}

} // verus!
