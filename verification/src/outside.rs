//! The calls this library makes into other crates, each with the contract that
//! the verified code relies on. None of these bodies is verified; each contract
//! states what the called crate's source shows.
use crate::jobifier::{
    entries_view, ArchiveEntry, ArchiveEntryView, Config, Container, EnvVar, JobTemplate,
    JobTemplateView, ObjectMeta, PodTemplate,
};
use k8s_openapi::api::batch::v1::{Job as K8sJob, JobSpec};
use k8s_openapi::apimachinery::pkg::apis::meta::v1::ObjectMeta as K8sMeta;
use lru_time_cache::LruCache;
use openssl::{pkcs12::Pkcs12, pkey::PKey, x509::X509};
use std::hash::Hasher;
use std::io::Read;
use vstd::arithmetic::power2::pow2;
use vstd::prelude::*;

verus! {

// ---------------------------------------------------------------- uuid

/// The lower-case hexadecimal digit for `d`, `0 <= d < 16`.
pub open spec fn hex_digit(d: int) -> char {
    if d < 10 {
        (48 + d) as char
    } else {
        (97 + d - 10) as char
    }
}

/// The `j`-th of the 32 four-bit digits of a UUID, most significant first.
pub open spec fn uuid_digit(u: u128, j: int) -> int {
    (u as int / pow2((4 * (31 - j)) as nat) as int) % 16
}

/// How many of the hyphens of the hyphenated form come before position `i`.
pub open spec fn hyphens_before(i: int) -> int {
    if i < 8 {
        0
    } else if i < 13 {
        1
    } else if i < 18 {
        2
    } else if i < 23 {
        3
    } else {
        4
    }
}

/// The hyphenated lower-case text of a UUID, `xxxxxxxx-xxxx-xxxx-xxxx-xxxxxxxxxxxx`,
/// whose 32 digits are the UUID's 128 bits, most significant first.
pub open spec fn uuid_text(u: u128) -> Seq<char> {
    Seq::new(
        36,
        |i: int|
            if i == 8 || i == 13 || i == 18 || i == 23 {
                '-'
            } else {
                hex_digit(uuid_digit(u, i - hyphens_before(i)))
            },
    )
}

/// The UUID, as its 128 bits (most significant byte first), that `uuid::Uuid::parse_str`
/// reads from a text, or `None` where it refuses the text.
pub uninterp spec fn parsed_uuid(text: Seq<char>) -> Option<u128>;

/// Calls `uuid::Uuid::parse_str` and takes the UUID's bits with `Uuid::as_u128`.
/// The result is the one `parsed_uuid` names. Only texts of 32 (simple), 36
/// (hyphenated), 38 (braced) or 45 (URN) ASCII characters are accepted; which of
/// them, by their hexadecimal digits and hyphens, is left unstated.
#[verifier::external_body]
pub(crate) fn parse_uuid(text: &str) -> (r: Option<u128>)
    ensures
        r == parsed_uuid(text@),
        r is Some ==> text@.len() == 32 || text@.len() == 36 || text@.len() == 38
            || text@.len() == 45,
{
    match uuid::Uuid::parse_str(text) {
        Ok(u) => Some(u.as_u128()),
        Err(_) => None,
    }
}

/// Formats a UUID with `uuid::Uuid::from_u128` and its `Display` impl, which writes
/// the hyphenated lower-case form; `Uuid::parse_str` reads that form back.
#[verifier::external_body]
pub(crate) fn uuid_to_text(u: u128) -> (s: String)
    ensures
        s@ == uuid_text(u),
        parsed_uuid(s@) == Some(u),
{
    uuid::Uuid::from_u128(u).to_string()
}

// ---------------------------------------------------------------- twox-hash

/// The 64-bit xxHash, with seed 0, of a sequence of bytes.
pub uninterp spec fn xxhash64(bytes: Seq<u8>) -> u64;

/// Hashes bytes with `twox_hash::XxHash::default()` (xxHash64, seed 0), `Hasher::write`
/// and `Hasher::finish`; the result is the one `xxhash64` names.
#[verifier::external_body]
pub(crate) fn hash_bytes(bytes: &[u8]) -> (h: u64)
    ensures
        h == xxhash64(bytes@),
{
    let mut hasher = twox_hash::XxHash::default();
    hasher.write(bytes);
    hasher.finish()
}

// ---------------------------------------------------------------- base64

/// The character of the standard base64 alphabet for the six-bit value `v`.
pub open spec fn base64_char(v: int) -> char {
    if v < 26 {
        (65 + v) as char
    } else if v < 52 {
        (97 + v - 26) as char
    } else if v < 62 {
        (48 + v - 52) as char
    } else if v == 62 {
        '+'
    } else {
        '/'
    }
}

/// Standard base64 with `=` padding: every three bytes become four characters,
/// and a last group of one or two bytes is padded to four characters.
pub open spec fn base64_standard(b: Seq<u8>) -> Seq<char>
    decreases b.len(),
{
    let b0 = if b.len() > 0 { b[0] as int } else { 0 };
    let b1 = if b.len() > 1 { b[1] as int } else { 0 };
    let b2 = if b.len() > 2 { b[2] as int } else { 0 };
    if b.len() == 0 {
        seq![]
    } else if b.len() == 1 {
        seq![base64_char(b0 / 4), base64_char((b0 % 4) * 16), '=', '=']
    } else if b.len() == 2 {
        seq![
            base64_char(b0 / 4),
            base64_char((b0 % 4) * 16 + b1 / 16),
            base64_char((b1 % 16) * 4),
            '=',
        ]
    } else {
        seq![
            base64_char(b0 / 4),
            base64_char((b0 % 4) * 16 + b1 / 16),
            base64_char((b1 % 16) * 4 + b2 / 64),
            base64_char(b2 % 64),
        ] + base64_standard(b.skip(3))
    }
}

/// Encodes bytes with `base64::encode`, which uses the standard alphabet with padding.
#[verifier::external_body]
pub(crate) fn base64_encode(bytes: &[u8]) -> (s: String)
    ensures
        s@ == base64_standard(bytes@),
{
    base64::encode(bytes)
}

/// The bytes that `base64::decode` (standard alphabet, padding) reads from a text,
/// or `None` where it refuses the text.
pub uninterp spec fn base64_decoded(text: Seq<char>) -> Option<Seq<u8>>;

/// Decodes a text with `base64::decode`; the result is the one `base64_decoded` names.
/// Which texts are accepted is left unstated.
#[verifier::external_body]
pub(crate) fn base64_decode(text: &str) -> (r: Option<Vec<u8>>)
    ensures
        match r {
            Some(b) => base64_decoded(text@) == Some(b@),
            None => base64_decoded(text@) is None,
        },
{
    base64::decode(text).ok()
}

// ---------------------------------------------------------------- http

/// A character that `http::HeaderValue` accepts: every byte of its UTF-8 encoding is
/// a tab or at least 32 and not 127 (all bytes of a character beyond ASCII are).
pub open spec fn header_char_allowed(c: char) -> bool {
    (c as u32 >= 32 && c as u32 != 127) || c == '\t'
}

/// A text that `http::HeaderValue::from_str` accepts.
pub open spec fn is_header_value(s: Seq<char>) -> bool {
    forall|i: int| 0 <= i < s.len() ==> header_char_allowed(#[trigger] s[i])
}

/// Whether `http::HeaderValue::from_str` accepts the text; it refuses a text holding
/// a byte below 32 other than tab, or the byte 127.
#[verifier::external_body]
pub(crate) fn header_value_accepts(text: &str) -> (ok: bool)
    ensures
        ok == is_header_value(text@),
{
    http::HeaderValue::from_str(text).is_ok()
}

// ---------------------------------------------------------------- std::path

/// Whether `std::path::Path`'s equality, which compares paths component by component,
/// holds between the paths written as these two texts.
pub uninterp spec fn same_path(a: Seq<char>, b: Seq<char>) -> bool;

/// A path of one plain component: not empty, neither `.` nor `..`, without `/`.
pub open spec fn plain_file_name(p: Seq<char>) -> bool {
    &&& p.len() > 0
    &&& !p.contains('/')
    &&& p != seq!['.']
    &&& p != seq!['.', '.']
}

/// Compares two paths with `std::path::Path`'s `==`, which compares their components.
/// Equal texts are equal paths, and two plain file names are the same path exactly
/// when they are the same text; which other texts name the same path is left unstated.
#[verifier::external_body]
pub(crate) fn paths_equal(a: &str, b: &str) -> (r: bool)
    ensures
        r == same_path(a@, b@),
        a@ == b@ ==> r,
        plain_file_name(a@) && plain_file_name(b@) ==> (r <==> a@ == b@),
{
    std::path::Path::new(a) == std::path::Path::new(b)
}

/// The text of a path after `std::path::Path::strip_prefix("./")`, or the path itself
/// where that prefix does not apply.
pub uninterp spec fn curdir_stripped(p: Seq<char>) -> Seq<char>;

/// Removes a leading `./` component from a path with `Path::strip_prefix`, keeping the
/// path when it has none. A path whose text does not start with `.` is kept as it is;
/// for other texts the result is the one `curdir_stripped` names.
#[verifier::external_body]
pub(crate) fn strip_curdir(p: &str) -> (r: String)
    ensures
        r@ == curdir_stripped(p@),
        !(p@.len() > 0 && p@[0] == '.') ==> r@ == p@,
{
    let path = std::path::Path::new(p);
    match path.strip_prefix("./") {
        Ok(rest) => rest.to_string_lossy().into_owned(),
        Err(_) => p.to_owned(),
    }
}

// ---------------------------------------------------------------- flate2 and tar

/// The entries that `tar::Archive::entries` lists in the archive that
/// `flate2::read::GzDecoder` decompresses from gzip-compressed bytes, each with its
/// path, whether it is a regular file and its contents as text; `None` where the
/// entries cannot be listed.
pub uninterp spec fn archive_listing(bytes: Seq<u8>) -> Option<Seq<ArchiveEntryView>>;

/// Decompresses gzip-compressed bytes with `flate2::read::GzDecoder` and lists the tar
/// archive they hold with `tar::Archive::entries`, skipping the entries that cannot be
/// read; for each entry, its header's path and its data read as UTF-8 text (`None`
/// where either cannot be had), and whether its header's type is `Regular`. The result
/// is the one `archive_listing` names.
#[verifier::external_body]
pub(crate) fn read_archive(bytes: &[u8]) -> (r: Option<Vec<ArchiveEntry>>)
    ensures
        match r {
            Some(es) => archive_listing(bytes@) == Some(entries_view(es@)),
            None => archive_listing(bytes@) is None,
        },
{
    let mut archive = tar::Archive::new(flate2::read::GzDecoder::new(bytes));
    let mut out = Vec::new();
    for f in archive.entries().ok()? {
        let Ok(mut f) = f else { continue };
        let regular = matches!(f.header().entry_type(), tar::EntryType::Regular);
        let mut s = String::new();
        let contents = f.read_to_string(&mut s).ok().map(|_| s);
        let path = f.header().path().ok().map(|p| p.to_string_lossy().into_owned());
        out.push(ArchiveEntry { path, regular, contents });
    }
    Some(out)
}

// ---------------------------------------------------------------- serde_yaml and k8s-openapi

/// What the jobifier reads of the Kubernetes job description that `serde_yaml::from_str`
/// parses, as a `k8s_openapi` batch `Job`, out of a text: the text itself, the job's
/// name and labels and, when it has a spec, its pod template's name and labels and each
/// container's environment variables (names and values) and arguments; `None` where
/// the text is not such a description.
pub uninterp spec fn parsed_job_spec(text: Seq<char>) -> Option<JobTemplateView>;

/// Parses a Kubernetes job description with `serde_yaml::from_str` into a `k8s_openapi`
/// batch `Job` and keeps, field for field, what the jobifier reads of it, with the text
/// as its source. The result is the one `parsed_job_spec` names.
#[verifier::external_body]
pub(crate) fn parse_job_spec(text: &str) -> (r: Option<JobTemplate>)
    ensures
        match r {
            Some(t) => parsed_job_spec(text@) == Some(t@) && t.source@ == text@,
            None => parsed_job_spec(text@) is None,
        },
{
    let j: K8sJob = serde_yaml::from_str(text).ok()?;
    let meta = |m: K8sMeta| ObjectMeta { name: m.name, labels: m.labels.map(|l| l.into_iter().collect()) };
    let pod = |s: JobSpec| PodTemplate {
        metadata: s.template.metadata.map(meta),
        containers: s.template.spec.map(|p| p.containers.into_iter().map(|c| Container {
            env: c.env.map(|e| e.into_iter().map(|v| EnvVar { name: v.name, value: v.value }).collect()),
            args: c.args,
        }).collect()),
    };
    Some(JobTemplate { source: text.to_owned(), metadata: meta(j.metadata), template: j.spec.map(pod) })
}

// ---------------------------------------------------------------- openssl

#[verifier::external_type_specification]
#[verifier::external_body]
pub struct ExX509(X509);

#[verifier::external_type_specification]
#[verifier::external_body]
pub struct ExPkcs12(Pkcs12);

/// A text that holds no NUL character, as a C string must not.
pub open spec fn no_nul(s: Seq<char>) -> bool {
    !s.contains('\0')
}

/// Whether `openssl::x509::X509::from_pem` reads a certificate from the bytes.
pub uninterp spec fn pem_cert_parses(pem: Seq<u8>) -> bool;

/// Whether `openssl::pkey::PKey::private_key_from_pem` reads a private key from the bytes.
pub uninterp spec fn pem_key_parses(pem: Seq<u8>) -> bool;

/// Reads a certificate with `X509::from_pem`; it succeeds exactly where
/// `pem_cert_parses` holds. The buffer is read through a memory BIO, which asserts
/// that its length fits a C `int`.
#[verifier::external_body]
pub(crate) fn x509_from_pem(pem: &[u8]) -> (r: Option<X509>)
    requires
        pem@.len() <= i32::MAX,
    ensures
        r is Some <==> pem_cert_parses(pem@),
{
    X509::from_pem(pem).ok()
}

/// Reads a certificate with `X509::from_pem` and a private key with
/// `PKey::private_key_from_pem`, then builds a PKCS #12 archive of them with
/// `Pkcs12::builder` (`name`, `pkey`, `cert`, `build2`). Building draws a random salt
/// and can fail on its own, so only this is stated: an archive is made only when both
/// the certificate and the key parse. The PEM buffers are read through a memory BIO,
/// which asserts that their length fits a C `int`, and the name and password become C
/// strings, unwrapped, so none of them may hold a NUL character.
#[verifier::external_body]
pub(crate) fn pkcs12_from_pem(cert: &[u8], key: &[u8], name: &str, password: &str) -> (r: Option<
    Pkcs12,
>)
    requires
        cert@.len() <= i32::MAX,
        key@.len() <= i32::MAX,
        no_nul(name@),
        no_nul(password@),
    ensures
        r is Some ==> pem_cert_parses(cert@) && pem_key_parses(key@),
{
    let x509 = X509::from_pem(cert).ok()?;
    let pkey = PKey::private_key_from_pem(key).ok()?;
    Pkcs12::builder().name(name).pkey(&pkey).cert(&x509).build2(password).ok()
}

// ---------------------------------------------------------------- lru_time_cache

#[verifier::external_type_specification]
#[verifier::external_body]
#[verifier::reject_recursive_types(Key)]
#[verifier::reject_recursive_types(Value)]
pub struct ExLruCache<Key, Value>(LruCache<Key, Value>);

/// What a cache of agent configurations holds: checksum to configuration.
pub uninterp spec fn cached_configs(cache: LruCache<String, Option<Config>>) -> Map<
    Seq<char>,
    Option<Config>,
>;

/// The capacity a cache of agent configurations was made with.
pub uninterp spec fn cache_capacity(cache: LruCache<String, Option<Config>>) -> nat;

/// Whether a cache of agent configurations was made with a time to live, so that
/// its entries expire with time.
pub uninterp spec fn cache_expires(cache: LruCache<String, Option<Config>>) -> bool;

/// `LruCache::with_capacity`: an empty cache that holds at most `capacity` entries
/// and whose entries never expire.
#[verifier::external_body]
pub(crate) fn new_config_cache(capacity: usize) -> (c: LruCache<String, Option<Config>>)
    ensures
        cached_configs(c).is_empty(),
        cache_capacity(c) == capacity,
        cache_expires(c) == false,
{
    LruCache::with_capacity(capacity)
}

/// `LruCache::contains_key`; without a time to live, whether the key is held.
#[verifier::external_body]
pub(crate) fn config_cache_contains(c: &LruCache<String, Option<Config>>, key: &str) -> (r: bool)
    requires
        !cache_expires(*c),
    ensures
        r == cached_configs(*c).contains_key(key@),
{
    c.contains_key(key)
}

/// `LruCache::get`, with the value cloned: the value held for the key, if any. The
/// call marks the key as most recently used; what the cache holds does not change.
#[verifier::external_body]
pub(crate) fn config_cache_get(c: &mut LruCache<String, Option<Config>>, key: &str) -> (r: Option<
    Option<Config>,
>)
    requires
        !cache_expires(*old(c)),
    ensures
        cached_configs(*final(c)) == cached_configs(*old(c)),
        cache_capacity(*final(c)) == cache_capacity(*old(c)),
        !cache_expires(*final(c)),
        r == (if cached_configs(*old(c)).contains_key(key@) {
            Some(cached_configs(*old(c))[key@])
        } else {
            None
        }),
{
    c.get(key).cloned()
}

/// `LruCache::insert`: the key is then held with the value and becomes the most
/// recently used; a new key, when the cache is full, first evicts the least recently
/// used key, so no other key is added and the values of the keys that stay do not
/// change. Recency, and so which key is evicted, is left unstated.
#[verifier::external_body]
pub(crate) fn config_cache_insert(c: &mut LruCache<String, Option<Config>>, key: String, value: Option<Config>)
    requires
        !cache_expires(*old(c)),
        cache_capacity(*old(c)) >= 1,
    ensures
        cache_capacity(*final(c)) == cache_capacity(*old(c)),
        !cache_expires(*final(c)),
        cached_configs(*final(c)).contains_key(key@),
        cached_configs(*final(c))[key@] == value,
        forall|k: Seq<char>| #[trigger]
            cached_configs(*final(c)).contains_key(k) && k != key@ ==> cached_configs(
                *old(c),
            ).contains_key(k) && cached_configs(*final(c))[k] == cached_configs(*old(c))[k],
        cached_configs(*old(c)).contains_key(key@) || cached_configs(*old(c)).len() < cache_capacity(
            *old(c),
        ) ==> cached_configs(*final(c)) == cached_configs(*old(c)).insert(key@, value),
{
    c.insert(key, value);
}

} // verus!
