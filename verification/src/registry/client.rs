//! The decisions of the registry client: where to ask, which token to fetch,
//! which manifest of an index to take, and which blob answers to accept.

use vstd::prelude::*;
use crate::registry::auth::AuthError;
use crate::registry::manifest::{arch_name, Arch, ImageIndex, ImageManifest, ManifestDescriptor};
use crate::text::contains_str;

verus! {

/// The largest layer, in bytes, that a registry may announce.
pub const MAX_LAYER_SIZE: u64 = 100 * 1024 * 1024;

/// The errors of the registry client.
#[derive(Debug)]
pub enum ClientError {
    Http(reqwest::Error),
    Auth(AuthError),
    ArchNotFound(String),
    LayerTooLarge(u64),
    UnexpectedStatus(u16),
}

impl From<AuthError> for ClientError {
    fn from(e: AuthError) -> (r: Self) {
        ClientError::Auth(e)
    }
}

impl vstd::std_specs::convert::FromSpecImpl<AuthError> for ClientError {
    open spec fn obeys_from_spec() -> bool {
        true
    }

    open spec fn from_spec(e: AuthError) -> Self {
        ClientError::Auth(e)
    }
}

impl From<reqwest::Error> for ClientError {
    fn from(e: reqwest::Error) -> (r: Self) {
        ClientError::Http(e)
    }
}

impl vstd::std_specs::convert::FromSpecImpl<reqwest::Error> for ClientError {
    open spec fn obeys_from_spec() -> bool {
        true
    }

    open spec fn from_spec(e: reqwest::Error) -> Self {
        ClientError::Http(e)
    }
}

/// The URL of a manifest (`reference` is a tag or a digest).
pub fn manifest_url(registry: &str, repository: &str, reference: &str) -> (r: String)
    ensures
        r@ == "https://"@ + registry@ + "/v2/"@ + repository@ + "/manifests/"@ + reference@,
{
    String::from_str("https://").concat(registry).concat("/v2/").concat(repository).concat(
        "/manifests/",
    ).concat(reference)
}

/// The URL of a blob.
pub fn blob_url(registry: &str, repository: &str, digest: &str) -> (r: String)
    ensures
        r@ == "https://"@ + registry@ + "/v2/"@ + repository@ + "/blobs/"@ + digest@,
{
    String::from_str("https://").concat(registry).concat("/v2/").concat(repository).concat(
        "/blobs/",
    ).concat(digest)
}

/// The URL that a registry answers with its authentication challenge.
pub fn ping_url(registry: &str) -> (r: String)
    ensures
        r@ == "https://"@ + registry@ + "/v2/"@,
{
    String::from_str("https://").concat(registry).concat("/v2/")
}

/// The token scope for pulling from `repository`.
pub fn pull_scope(repository: &str) -> (r: String)
    ensures
        r@ == "repository:"@ + repository@ + ":pull"@,
{
    String::from_str("repository:").concat(repository).concat(":pull")
}

/// The registry is Docker Hub, whose token service is known in advance.
pub open spec fn is_docker_hub_spec(registry: Seq<char>) -> bool {
    crate::text::first_match_of(registry, "docker.io"@) is Some
}

/// Whether `registry` is Docker Hub (its name contains `docker.io`).
pub fn is_docker_hub(registry: &str) -> (r: bool)
    ensures
        r == is_docker_hub_spec(registry@),
{
    contains_str(registry, "docker.io")
}

/// Docker Hub is recognised by the text `docker.io` in the registry's name,
/// and by nothing else: a registry whose name does not hold those nine
/// characters in a row (`docker.elastic.co`, `docker.pkg.github.com`) is not
/// Docker Hub, and keeps the token service its own challenge names.
pub proof fn lemma_docker_hub_by_name(registry: Seq<char>)
    ensures
        is_docker_hub_spec(registry) <==> exists|i: int|
            0 <= i && i + 9 <= registry.len() && #[trigger] registry.subrange(i, i + 9) == seq![
                'd',
                'o',
                'c',
                'k',
                'e',
                'r',
                '.',
                'i',
                'o',
            ],
{
    reveal_strlit("docker.io");
    let pat = seq!['d', 'o', 'c', 'k', 'e', 'r', '.', 'i', 'o'];
    assert("docker.io"@ =~= pat);
    if exists|i: int| 0 <= i && i + 9 <= registry.len() && #[trigger] registry.subrange(i, i + 9) == pat {
        let i = choose|i: int| 0 <= i && i + 9 <= registry.len() && #[trigger] registry.subrange(i, i + 9) == pat;
        assert(crate::text::occurs_at(registry, "docker.io"@, i));
    }
    if is_docker_hub_spec(registry) {
        let i = choose|i: int| crate::text::occurs_at(registry, "docker.io"@, i);
        assert(registry.subrange(i, i + 9) == pat);
    }
}

/// Where the pull token comes from.
#[derive(Debug, PartialEq, Eq)]
pub enum TokenSource {
    /// A token service, at `realm`, for `service`.
    Endpoint { realm: String, service: String },
    /// No token: the registry is public and asks for none.
    Anonymous,
}

/// Chooses the token service: Docker Hub's own for Docker Hub, else the one
/// the registry's challenge named (`discovered`), else none.
pub fn token_source(registry: &str, discovered: Option<(String, String)>) -> (r: TokenSource)
    ensures
        is_docker_hub_spec(registry@) ==> (r matches TokenSource::Endpoint { realm, service }
            && realm@ == "https://auth.docker.io/token"@ && service@ == "registry.docker.io"@),
        !is_docker_hub_spec(registry@) ==> match discovered {
            Some((realm, service)) => r matches TokenSource::Endpoint { realm: r2, service: s2 }
                && r2 == realm && s2 == service,
            None => r is Anonymous,
        },
{
    if is_docker_hub(registry) {
        return TokenSource::Endpoint {
            realm: String::from_str("https://auth.docker.io/token"),
            service: String::from_str("registry.docker.io"),
        };
    }
    match discovered {
        Some((realm, service)) => TokenSource::Endpoint { realm, service },
        None => TokenSource::Anonymous,
    }
}

/// The answer announces more than `MAX_LAYER_SIZE` bytes.
pub open spec fn announces_too_large(content_length: Option<u64>) -> bool {
    match content_length {
        Some(n) => n > MAX_LAYER_SIZE,
        None => false,
    }
}

/// Accepts a blob answer: a declared length over `MAX_LAYER_SIZE` is refused
/// first, then any status but 200.
pub fn check_blob_response(content_length: Option<u64>, status: u16) -> (r: Result<(), ClientError>)
    ensures
        announces_too_large(content_length) ==> (r matches Err(ClientError::LayerTooLarge(m))
            && content_length == Some(m)),
        !announces_too_large(content_length) && status != 200 ==> (r matches Err(
            ClientError::UnexpectedStatus(s),
        ) && s == status),
        !announces_too_large(content_length) && status == 200 ==> r is Ok,
{
    if let Some(n) = content_length {
        if n > MAX_LAYER_SIZE {
            return Err(ClientError::LayerTooLarge(n));
        }
    }
    if status == 200 {
        Ok(())
    } else {
        Err(ClientError::UnexpectedStatus(status))
    }
}

/// Accepts the body of a blob answer: more than `MAX_LAYER_SIZE` bytes
/// received are refused, whatever length the answer declared.
pub fn check_blob_size(received: u64) -> (r: Result<(), ClientError>)
    ensures
        r is Ok <==> received <= MAX_LAYER_SIZE,
        r is Err ==> (r matches Err(ClientError::LayerTooLarge(n)) && n == received),
{
    if received > MAX_LAYER_SIZE {
        Err(ClientError::LayerTooLarge(received))
    } else {
        Ok(())
    }
}

/// The descriptor is for Linux on `arch`.
pub open spec fn platform_matches(d: ManifestDescriptor, arch: Arch) -> bool {
    d.platform matches Some(p) && p.architecture@ == arch_name(arch) && p.os@ == "linux"@
}

/// The first descriptor of `ms` for Linux on `arch`.
pub open spec fn first_platform_match(ms: Seq<ManifestDescriptor>, arch: Arch) -> Option<int> {
    if exists|i: int| 0 <= i < ms.len() && platform_matches(ms[i], arch) {
        Some(
            choose|i: int|
                0 <= i < ms.len() && platform_matches(ms[i], arch) && forall|j: int|
                    0 <= j < i ==> !platform_matches(ms[j], arch),
        )
    } else {
        None
    }
}

fn descriptor_matches(d: &ManifestDescriptor, arch: &Arch) -> (r: bool)
    ensures
        r == platform_matches(*d, *arch),
{
    match &d.platform {
        Some(p) => {
            let want = String::from_str(arch.as_oci_str());
            let linux = String::from_str("linux");
            p.architecture == want && p.os == linux
        },
        None => false,
    }
}

/// Takes, out of an index, the first manifest for Linux on `arch`.
pub fn select_manifest<'a>(index: &'a ImageIndex, arch: &Arch) -> (r: Result<&'a ManifestDescriptor, ClientError>)
    ensures
        first_platform_match(index.manifests@, *arch) matches Some(i) ==> (r matches Ok(d) && *d == index.manifests@[i]),
        first_platform_match(index.manifests@, *arch) is None ==> (r matches Err(ClientError::ArchNotFound(a)) && a@ == arch_name(*arch)),
{
    let n = index.manifests.len();
    let mut i: usize = 0;
    while i < n
        invariant
            n == index.manifests@.len(),
            i <= n,
            forall|j: int| 0 <= j < i ==> !platform_matches(#[trigger] index.manifests@[j], *arch),
        decreases n - i,
    {
        if descriptor_matches(&index.manifests[i], arch) {
            proof {
                let ms = index.manifests@;
                let k = choose|k: int|
                    0 <= k < ms.len() && platform_matches(ms[k], *arch) && forall|j: int|
                        0 <= j < k ==> !platform_matches(ms[j], *arch);
                assert(0 <= k < ms.len() && platform_matches(ms[k], *arch));
                if k > i as int {
                    assert(!platform_matches(ms[i as int], *arch));
                }
            }
            return Ok(&index.manifests[i]);
        }
        i = i + 1;
    }
    Err(ClientError::ArchNotFound(String::from_str(arch.as_oci_str())))
}

/// What a registry answers for an image reference: an index of manifests
/// (one per platform), or the single manifest of a one-platform image.
#[derive(Debug)]
pub enum ManifestReply {
    Index(ImageIndex),
    Manifest(ImageManifest),
}

/// What follows a reference's answer.
#[derive(Debug)]
pub enum ManifestStep {
    /// Fetch the manifest with this digest.
    Fetch(String),
    /// The answer was the manifest itself.
    Ready(ImageManifest),
}

/// Reads a registry's answer for an image reference: from an index, the
/// digest of the first manifest for Linux on `arch` is to be fetched; a
/// single manifest is the image's manifest already.
pub fn next_manifest_step(reply: ManifestReply, arch: &Arch) -> (r: Result<ManifestStep, ClientError>)
    ensures
        match reply {
            ManifestReply::Index(i) => match first_platform_match(i.manifests@, *arch) {
                Some(k) => r matches Ok(ManifestStep::Fetch(d)) && d@ == i.manifests@[k].digest@,
                None => r matches Err(ClientError::ArchNotFound(a)) && a@ == arch_name(*arch),
            },
            ManifestReply::Manifest(m) => r matches Ok(ManifestStep::Ready(x)) && x == m,
        },
{
    match reply {
        ManifestReply::Index(index) => {
            let d = select_manifest(&index, arch)?;
            Ok(ManifestStep::Fetch(d.digest.clone()))
        },
        ManifestReply::Manifest(m) => Ok(ManifestStep::Ready(m)),
    }
}

} // verus!
