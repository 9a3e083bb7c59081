use openssl::{asn1::Asn1Time, hash::MessageDigest, pkey::PKey, rsa::Rsa, x509::{X509NameBuilder, X509}};
use buildkite_jobify::headers::{basic_value, bearer_value};
use buildkite_jobify::k8s::client::{request_failure, ApiError, RequestError};
use buildkite_jobify::k8s::config::kube_config::{
    read_certificate, AuthInfo, Cluster, Context, KubeConfig, KubeConfigError, KubeConfigLoader,
    NamedAuthInfo, NamedCluster, NamedContext,
};
use buildkite_jobify::k8s::config::utils::{data_or_file, data_or_file_with_base64, DataOrFile};
use buildkite_jobify::k8s::config::{
    choose_auth, choose_tls, incluster_authorization, request_url, AuthChoice, TlsChoice,
};
use buildkite_jobify::scheduler::Error;
use buildkite_jobify::monitor::BkErr;
use buildkite_jobify::settings::{resolve_settings, FileConfig, Overrides, SettingsError};

fn s(x: &str) -> String {
    x.to_string()
}

fn user(u: Option<&str>, p: Option<&str>) -> AuthInfo {
    AuthInfo {
        username: u.map(s),
        password: p.map(s),
        token: None,
        token_file: None,
        client_certificate: None,
        client_certificate_data: None,
        client_key: None,
        client_key_data: None,
    }
}

fn cluster(server: &str, insecure: Option<bool>) -> Cluster {
    Cluster {
        server: s(server),
        insecure_skip_tls_verify: insecure,
        certificate_authority: None,
        certificate_authority_data: None,
    }
}

fn kubeconfig(current: &str) -> KubeConfig {
    KubeConfig {
        current_context: s(current),
        contexts: vec![
            NamedContext { name: s("dev"), context: Context { cluster: s("c1"), user: s("u1"), namespace: None } },
            NamedContext { name: s("prod"), context: Context { cluster: s("c2"), user: s("u2"), namespace: None } },
            NamedContext { name: s("lost"), context: Context { cluster: s("none"), user: s("u1"), namespace: None } },
            NamedContext { name: s("nouser"), context: Context { cluster: s("c1"), user: s("ghost"), namespace: None } },
        ],
        clusters: vec![
            NamedCluster { name: s("c1"), cluster: cluster("https://one", None) },
            NamedCluster { name: s("c2"), cluster: cluster("https://two", Some(true)) },
        ],
        auth_infos: vec![
            NamedAuthInfo { name: s("u1"), auth_info: user(Some("alice"), Some("pw")) },
            NamedAuthInfo { name: s("u2"), auth_info: user(None, None) },
        ],
    }
}

#[test]
fn loads_current_context() {
    let l = KubeConfigLoader::load(kubeconfig("prod")).unwrap();
    assert_eq!(l.current_context.cluster, "c2");
    assert_eq!(l.cluster.server, "https://two");
    assert!(l.user.username.is_none());
    assert!(matches!(KubeConfigLoader::load(kubeconfig("missing")), Err(KubeConfigError::NoCurrentContext)));
    assert!(matches!(KubeConfigLoader::load(kubeconfig("lost")), Err(KubeConfigError::NoCluster)));
    match KubeConfigLoader::load(kubeconfig("nouser")) {
        Err(KubeConfigError::NoUser(u)) => assert_eq!(u, "ghost"),
        _ => panic!("expected a missing user"),
    }
}

#[test]
fn auth_and_tls_choices() {
    assert!(matches!(choose_auth(true, &user(None, None)), Ok(AuthChoice::ServiceAccount)));
    match choose_auth(false, &user(Some("user"), Some("pass"))) {
        Ok(AuthChoice::Basic(v)) => assert_eq!(v, "Basic dXNlcjpwYXNz"),
        _ => panic!("expected basic auth"),
    }
    assert!(matches!(choose_auth(false, &user(Some("user"), None)), Err(KubeConfigError::NoAuthProvider)));
    assert!(matches!(choose_auth(false, &user(Some("u\u{7f}"), Some("p"))), Ok(_)));
    assert_eq!(choose_tls(true, &cluster("x", Some(true))), TlsChoice::Identity);
    assert_eq!(choose_tls(false, &cluster("x", Some(true))), TlsChoice::AcceptInvalidCerts);
    assert_eq!(choose_tls(false, &cluster("x", Some(false))), TlsChoice::Plain);
    assert_eq!(choose_tls(false, &cluster("x", None)), TlsChoice::Plain);
}

#[test]
fn header_values() {
    assert_eq!(bearer_value("t0k").as_deref(), Some("Bearer t0k"));
    assert_eq!(bearer_value("a\rb"), None);
    assert_eq!(basic_value("a", "b").as_deref(), Some("Basic YTpi"));
    assert_eq!(basic_value("a", "").as_deref(), Some("Basic YTo="));
    assert_eq!(basic_value("ab", "c").as_deref(), Some("Basic YWI6Yw=="));
    assert_eq!(bearer_value("tab\tok").as_deref(), Some("Bearer tab\tok"));
    assert_eq!(bearer_value("caf\u{e9}").as_deref(), Some("Bearer caf\u{e9}"));
    assert_eq!(bearer_value("del\u{7f}"), None);
    assert!(matches!(incluster_authorization("tok"), Ok(v) if v == "Bearer tok"));
    assert!(matches!(incluster_authorization("a\nb"), Err(KubeConfigError::InvalidHeader)));
}

#[test]
fn data_or_file_choices() {
    assert!(matches!(data_or_file(&Some(s("d")), &Some(s("f"))), Ok(DataOrFile::Data(d)) if d == "d"));
    assert!(matches!(data_or_file(&None, &Some(s("f"))), Ok(DataOrFile::File(f)) if f == "f"));
    assert!(matches!(data_or_file(&None, &None), Err(KubeConfigError::MissingDataOrFile)));
    assert!(matches!(data_or_file_with_base64(&Some(s("YWI=")), &None), Ok(DataOrFile::Data(d)) if d == b"ab".to_vec()));
    assert!(matches!(data_or_file_with_base64(&Some(s("!!")), &None), Err(KubeConfigError::InvalidBase64)));
    assert!(matches!(data_or_file_with_base64(&None, &Some(s("f"))), Ok(DataOrFile::File(f)) if f == "f"));
    assert!(matches!(data_or_file_with_base64(&None, &None), Err(KubeConfigError::MissingDataOrFile)));
}

#[test]
fn request_urls_and_failures() {
    assert_eq!(request_url("https://k8s", "/api/v1/pods?x=1"), "https://k8s/api/v1/pods?x=1");
    let e = ApiError { status: s("Failure"), message: None, reason: Some(s("NotFound")), code: 404 };
    assert!(matches!(request_failure(Some(e), s("http")), RequestError::Api(a) if a.code == 404));
    assert!(matches!(request_failure(None, s("http")), RequestError::Http(h) if h == "http"));
}

#[test]
fn scheduler_error() {
    let e = Error::Buildkite(BkErr::Reqwest(s("down")));
    assert_eq!(e.to_string(), "http request error: down");
    assert!(matches!(e.source(), BkErr::Reqwest(_)));
}

fn file() -> FileConfig {
    FileConfig { api_token: Some(s("file-token")), namespace: None, pipelines: vec![s("p1")], cluster: Some(s("c")) }
}

fn no_args() -> Overrides {
    Overrides { api_token: None, namespace: None, cluster: None, pipelines: vec![] }
}

#[test]
fn settings_resolution() {
    let st = resolve_settings(Some(file()), no_args(), Err(s("unset"))).unwrap();
    assert_eq!(st.api_token, "file-token");
    assert_eq!(st.namespace, "buildkite");
    assert_eq!(st.pipelines, vec![s("p1")]);
    assert_eq!(st.cluster.as_deref(), Some("c"));
    let args = Overrides { api_token: Some(s("arg")), namespace: Some(s("ns")), cluster: None, pipelines: vec![s("p2"), s("p3")] };
    let st = resolve_settings(Some(file()), args, Ok(s("env"))).unwrap();
    assert_eq!(st.api_token, "arg");
    assert_eq!(st.namespace, "ns");
    assert_eq!(st.pipelines, vec![s("p2"), s("p3")]);
    let env_only = Overrides { pipelines: vec![s("p")], ..no_args() };
    assert_eq!(resolve_settings(None, env_only, Ok(s("env"))).unwrap().api_token, "env");
    match resolve_settings(None, no_args(), Err(s("environment variable not found"))) {
        Err(SettingsError::MissingToken(m)) => assert_eq!(m, "environment variable not found"),
        _ => panic!("expected a missing token"),
    }
    assert!(matches!(resolve_settings(None, no_args(), Ok(s("t"))), Err(SettingsError::NoPipelines)));
}

fn self_signed() -> (Vec<u8>, Vec<u8>) {
    let key = PKey::from_rsa(Rsa::generate(2048).unwrap()).unwrap();
    let mut name = X509NameBuilder::new().unwrap();
    name.append_entry_by_text("CN", "test").unwrap();
    let name = name.build();
    let mut b = X509::builder().unwrap();
    b.set_version(2).unwrap();
    b.set_subject_name(&name).unwrap();
    b.set_issuer_name(&name).unwrap();
    b.set_pubkey(&key).unwrap();
    b.set_not_before(&Asn1Time::days_from_now(0).unwrap()).unwrap();
    b.set_not_after(&Asn1Time::days_from_now(1).unwrap()).unwrap();
    b.sign(&key, MessageDigest::sha256()).unwrap();
    (b.build().to_pem().unwrap(), key.private_key_to_pem_pkcs8().unwrap())
}

#[test]
fn certificates_and_identities() {
    let l = KubeConfigLoader::load(kubeconfig("dev")).unwrap();
    let (cert, key) = self_signed();
    assert!(l.ca(&cert).is_ok());
    assert!(matches!(l.ca(b"nope"), Err(KubeConfigError::InvalidCertificate)));
    assert!(matches!(read_certificate(b"nope"), Err(KubeConfigError::InvalidCertificate)));
    let p = l.p12(&cert, &key, "pw").unwrap();
    assert!(p.to_der().is_ok());
    assert!(matches!(l.p12(&cert, b"nope", "pw"), Err(KubeConfigError::InvalidIdentity)));
    assert!(matches!(l.p12(b"nope", &key, "pw"), Err(KubeConfigError::InvalidIdentity)));
}
