//! The parts of a kubeconfig file that the client uses, and the choice of the current
//! context, its cluster and its user.
use crate::outside::{no_nul, pem_cert_parses, pem_key_parses, pkcs12_from_pem, x509_from_pem};
use openssl::{pkcs12::Pkcs12, x509::X509};
use vstd::prelude::*;

verus! {

/// A context: which cluster to talk to, as which user.
#[derive(Debug, Clone)]
pub struct Context {
    pub cluster: String,
    pub user: String,
    pub namespace: Option<String>,
}

/// A cluster: where its API server is and how to trust it.
#[derive(Debug, Clone)]
pub struct Cluster {
    pub server: String,
    pub insecure_skip_tls_verify: Option<bool>,
    pub certificate_authority: Option<String>,
    pub certificate_authority_data: Option<String>,
}

/// A user's credentials.
#[derive(Debug, Clone)]
pub struct AuthInfo {
    pub username: Option<String>,
    pub password: Option<String>,
    pub token: Option<String>,
    pub token_file: Option<String>,
    pub client_certificate: Option<String>,
    pub client_certificate_data: Option<String>,
    pub client_key: Option<String>,
    pub client_key_data: Option<String>,
}

/// A context with its name.
#[derive(Debug, Clone)]
pub struct NamedContext {
    pub name: String,
    pub context: Context,
}

/// A cluster with its name.
#[derive(Debug, Clone)]
pub struct NamedCluster {
    pub name: String,
    pub cluster: Cluster,
}

/// A user with its name.
#[derive(Debug, Clone)]
pub struct NamedAuthInfo {
    pub name: String,
    pub auth_info: AuthInfo,
}

/// A kubeconfig file.
#[derive(Debug, Clone)]
pub struct KubeConfig {
    pub current_context: String,
    pub contexts: Vec<NamedContext>,
    pub clusters: Vec<NamedCluster>,
    pub auth_infos: Vec<NamedAuthInfo>,
}

/// Why no client configuration could be made.
#[derive(Debug, Clone)]
pub enum KubeConfigError {
    /// No context has the current context's name
    NoCurrentContext,
    /// No cluster has the name the current context gives
    NoCluster,
    /// No user has the name the current context gives
    NoUser(String),
    /// The user has neither a token nor a name and password
    NoAuthProvider,
    /// An `Authorization` header value is not a valid header value
    InvalidHeader,
    /// Neither inline data nor a file was given
    MissingDataOrFile,
    /// Inline data is not valid base64
    InvalidBase64,
    /// The certificate authority is not a PEM certificate
    InvalidCertificate,
    /// No PKCS #12 archive could be made of the client certificate and key
    InvalidIdentity,
}

/// The index of the first of the names that equals `n`.
pub open spec fn name_index(names: Seq<Seq<char>>, n: Seq<char>) -> Option<int>
    decreases names.len(),
{
    if names.len() == 0 {
        None
    } else if names[0] == n {
        Some(0)
    } else {
        match name_index(names.drop_first(), n) {
            Some(i) => Some(i + 1),
            None => None,
        }
    }
}

/// The names of the contexts.
pub open spec fn context_names(s: Seq<NamedContext>) -> Seq<Seq<char>> {
    s.map_values(|c: NamedContext| c.name@)
}

/// The names of the clusters.
pub open spec fn cluster_names(s: Seq<NamedCluster>) -> Seq<Seq<char>> {
    s.map_values(|c: NamedCluster| c.name@)
}

/// The names of the users.
pub open spec fn user_names(s: Seq<NamedAuthInfo>) -> Seq<Seq<char>> {
    s.map_values(|c: NamedAuthInfo| c.name@)
}

/// Finds the first entry named `n`.
fn find_context(entries: &Vec<NamedContext>, n: &str) -> (r: Option<usize>)
    ensures
        match r {
            Some(i) => name_index(context_names(entries@), n@) == Some(i as int) && i < entries@.len(),
            None => name_index(context_names(entries@), n@) is None,
        },
{
    let ghost nv = context_names(entries@);
    let mut i: usize = 0;
    assert(nv.skip(0) =~= nv);
    while i < entries.len()
        invariant
            nv == context_names(entries@),
            i <= entries.len(),
            name_index(nv, n@) == (match name_index(nv.skip(i as int), n@) {
                Some(j) => Some(j + i),
                None => None,
            }),
        decreases entries.len() - i,
    {
        assert(nv.skip(i as int).drop_first() =~= nv.skip(i + 1));
        assert(nv.skip(i as int)[0] == nv[i as int]);
        if crate::text::text_equals(entries[i].name.as_str(), n) {
            return Some(i);
        }
        i = i + 1;
    }
    None
}

/// Finds the first entry named `n`.
fn find_cluster(entries: &Vec<NamedCluster>, n: &str) -> (r: Option<usize>)
    ensures
        match r {
            Some(i) => name_index(cluster_names(entries@), n@) == Some(i as int) && i < entries@.len(),
            None => name_index(cluster_names(entries@), n@) is None,
        },
{
    let ghost nv = cluster_names(entries@);
    let mut i: usize = 0;
    assert(nv.skip(0) =~= nv);
    while i < entries.len()
        invariant
            nv == cluster_names(entries@),
            i <= entries.len(),
            name_index(nv, n@) == (match name_index(nv.skip(i as int), n@) {
                Some(j) => Some(j + i),
                None => None,
            }),
        decreases entries.len() - i,
    {
        assert(nv.skip(i as int).drop_first() =~= nv.skip(i + 1));
        assert(nv.skip(i as int)[0] == nv[i as int]);
        if crate::text::text_equals(entries[i].name.as_str(), n) {
            return Some(i);
        }
        i = i + 1;
    }
    None
}

/// Finds the first entry named `n`.
fn find_user(entries: &Vec<NamedAuthInfo>, n: &str) -> (r: Option<usize>)
    ensures
        match r {
            Some(i) => name_index(user_names(entries@), n@) == Some(i as int) && i < entries@.len(),
            None => name_index(user_names(entries@), n@) is None,
        },
{
    let ghost nv = user_names(entries@);
    let mut i: usize = 0;
    assert(nv.skip(0) =~= nv);
    while i < entries.len()
        invariant
            nv == user_names(entries@),
            i <= entries.len(),
            name_index(nv, n@) == (match name_index(nv.skip(i as int), n@) {
                Some(j) => Some(j + i),
                None => None,
            }),
        decreases entries.len() - i,
    {
        assert(nv.skip(i as int).drop_first() =~= nv.skip(i + 1));
        assert(nv.skip(i as int)[0] == nv[i as int]);
        if crate::text::text_equals(entries[i].name.as_str(), n) {
            return Some(i);
        }
        i = i + 1;
    }
    None
}

/// The current context of a kubeconfig, with its cluster and user.
#[derive(Debug)]
pub struct KubeConfigLoader {
    pub current_context: Context,
    pub cluster: Cluster,
    pub user: AuthInfo,
}

impl KubeConfigLoader {
    /// Picks the current context of a kubeconfig, then the cluster and the user that
    /// context names; for each, the first entry with the name.
    pub fn load(config: KubeConfig) -> (r: Result<KubeConfigLoader, KubeConfigError>)
        ensures
            match name_index(context_names(config.contexts@), config.current_context@) {
                None => r == Err::<KubeConfigLoader, KubeConfigError>(
                    KubeConfigError::NoCurrentContext,
                ),
                Some(i) => {
                    let ctx = config.contexts@[i].context;
                    match name_index(cluster_names(config.clusters@), ctx.cluster@) {
                        None => r == Err::<KubeConfigLoader, KubeConfigError>(
                            KubeConfigError::NoCluster,
                        ),
                        Some(j) => match name_index(user_names(config.auth_infos@), ctx.user@) {
                            None => r matches Err(KubeConfigError::NoUser(u)) && u@ == ctx.user@,
                            Some(k) => r matches Ok(l) && l.current_context == ctx && l.cluster
                                == config.clusters@[j].cluster && l.user
                                == config.auth_infos@[k].auth_info,
                        },
                    }
                },
            },
    {
        let KubeConfig { current_context, mut contexts, mut clusters, mut auth_infos } = config;
        let i = match find_context(&contexts, current_context.as_str()) {
            Some(i) => i,
            None => return Err(KubeConfigError::NoCurrentContext),
        };
        let ctx = contexts.remove(i).context;
        let j = match find_cluster(&clusters, ctx.cluster.as_str()) {
            Some(j) => j,
            None => return Err(KubeConfigError::NoCluster),
        };
        let k = match find_user(&auth_infos, ctx.user.as_str()) {
            Some(k) => k,
            None => return Err(KubeConfigError::NoUser(ctx.user.clone())),
        };
        let cluster = clusters.remove(j).cluster;
        let user = auth_infos.remove(k).auth_info;
        Ok(KubeConfigLoader { current_context: ctx, cluster, user })
    }
}

/// A certificate authority read from PEM bytes.
pub fn read_certificate(pem: &[u8]) -> (r: Result<X509, KubeConfigError>)
    requires
        pem@.len() <= i32::MAX,
    ensures
        r is Ok <==> pem_cert_parses(pem@),
        r is Err ==> r == Err::<X509, KubeConfigError>(KubeConfigError::InvalidCertificate),
{
    match x509_from_pem(pem) {
        Some(c) => Ok(c),
        None => Err(KubeConfigError::InvalidCertificate),
    }
}

impl KubeConfigLoader {
    /// The cluster's certificate authority, read from the PEM bytes of its data or file.
    pub fn ca(&self, pem: &[u8]) -> (r: Result<X509, KubeConfigError>)
        requires
            pem@.len() <= i32::MAX,
        ensures
            r is Ok <==> pem_cert_parses(pem@),
            r is Err ==> r == Err::<X509, KubeConfigError>(KubeConfigError::InvalidCertificate),
    {
        read_certificate(pem)
    }

    /// The user's client certificate and private key, read from their PEM bytes, as a
    /// PKCS #12 archive named `kubeconfig` and protected by `password`. It is made only
    /// of a certificate and a key that both parse. As C strings, the password may hold
    /// no NUL character, and each buffer's length must fit a C `int`.
    pub fn p12(&self, cert: &[u8], key: &[u8], password: &str) -> (r: Result<Pkcs12, KubeConfigError>)
        requires
            cert@.len() <= i32::MAX,
            key@.len() <= i32::MAX,
            no_nul(password@),
        ensures
            r is Ok ==> pem_cert_parses(cert@) && pem_key_parses(key@),
            !pem_cert_parses(cert@) || !pem_key_parses(key@) ==> r is Err,
            r is Err ==> r == Err::<Pkcs12, KubeConfigError>(KubeConfigError::InvalidIdentity),
    {
        proof {
            reveal_strlit("kubeconfig");
        }
        match pkcs12_from_pem(cert, key, "kubeconfig", password) {
            Some(p) => Ok(p),
            None => Err(KubeConfigError::InvalidIdentity),
        }
    }
}

} // verus!
