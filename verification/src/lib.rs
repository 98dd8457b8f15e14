//! Turning an OCI image into a root filesystem for a Firecracker VM: the
//! decisions of the pipeline (which registry, which layers to fetch, which
//! cached layers to reuse, what to mount and serve), each with its contract.
//! The network, the disk and the child processes are driven by the caller,
//! which hands the outcome of each step back to these functions.

use vstd::prelude::*;

pub mod dashboard;
pub mod external;
pub mod image;
pub mod overlay;
pub mod registry;
pub mod store;
pub mod text;

use crate::dashboard::{is_valid_digest, valid_digest_spec};
use crate::image::unpack::{
    digest_hex, entry_admitted, has_parent_component, lemma_admitted_entry_stays_inside, parent_component_at,
    UnpackError,
};
use crate::text::has_prefix;
use crate::overlay::fuse::{
    first_refused_path, mount_options, plan_overlay_mount, texts, MountCommand, OverlayError, OverlayMount,
};
use crate::registry::auth::Credentials;
use crate::registry::client::ClientError;
use crate::registry::manifest::{Arch, ImageManifest, LayerDescriptor};
use crate::store::{path_join, Store, StoreError, VmDir};
use crate::text::{
    chars_of, find_char_in, first_index_of, has_suffix, push_char, slice_of, strip_suffixes,
    tail_from, trim_prefixes, trim_suffixes, contains_char,
};

verus! {

/// The largest image, in bytes summed over its layers, that is pulled.
pub const MAX_ROOTFS_SIZE: u64 = 300 * 1024 * 1024;

/// The errors of building a root filesystem.
#[derive(Debug)]
pub enum OciError {
    Store(StoreError),
    Client(ClientError),
    Unpack(UnpackError),
    Overlay(OverlayError),
    InvalidRef(String),
    RootfsTooLarge(u64),
}

impl From<StoreError> for OciError {
    fn from(e: StoreError) -> (r: Self) {
        OciError::Store(e)
    }
}

impl vstd::std_specs::convert::FromSpecImpl<StoreError> for OciError {
    open spec fn obeys_from_spec() -> bool {
        true
    }

    open spec fn from_spec(e: StoreError) -> Self {
        OciError::Store(e)
    }
}

impl From<ClientError> for OciError {
    fn from(e: ClientError) -> (r: Self) {
        OciError::Client(e)
    }
}

impl vstd::std_specs::convert::FromSpecImpl<ClientError> for OciError {
    open spec fn obeys_from_spec() -> bool {
        true
    }

    open spec fn from_spec(e: ClientError) -> Self {
        OciError::Client(e)
    }
}

impl From<UnpackError> for OciError {
    fn from(e: UnpackError) -> (r: Self) {
        OciError::Unpack(e)
    }
}

impl vstd::std_specs::convert::FromSpecImpl<UnpackError> for OciError {
    open spec fn obeys_from_spec() -> bool {
        true
    }

    open spec fn from_spec(e: UnpackError) -> Self {
        OciError::Unpack(e)
    }
}

impl From<OverlayError> for OciError {
    fn from(e: OverlayError) -> (r: Self) {
        OciError::Overlay(e)
    }
}

impl vstd::std_specs::convert::FromSpecImpl<OverlayError> for OciError {
    open spec fn obeys_from_spec() -> bool {
        true
    }

    open spec fn from_spec(e: OverlayError) -> Self {
        OciError::Overlay(e)
    }
}

// ----------------------------------------------------------------------------
// Image references
// ----------------------------------------------------------------------------

/// The registry of images named without one.
pub open spec fn docker_hub_registry() -> Seq<char> {
    "registry-1.docker.io"@
}

/// The registry and the rest of a reference: the part before the first `/`
/// names a registry when it holds a `.` or a `:`; a reference without `/` is
/// an official image of Docker Hub.
pub open spec fn split_registry(image: Seq<char>) -> (Seq<char>, Seq<char>) {
    match first_index_of(image, '/') {
        Some(i) => {
            let first = image.take(i);
            if first.contains('.') || first.contains(':') {
                (first, image.skip(i + 1))
            } else {
                (docker_hub_registry(), image)
            }
        },
        None => (docker_hub_registry(), "library/"@ + image),
    }
}

/// The repository and tag of the rest of a reference, split at the first `:`;
/// the tag is `latest` when none is given.
pub open spec fn split_tag(rest: Seq<char>) -> (Seq<char>, Seq<char>) {
    match first_index_of(rest, ':') {
        Some(j) => (rest.take(j), rest.skip(j + 1)),
        None => (rest, "latest"@),
    }
}

/// The registry, repository and tag named by an image reference.
pub open spec fn image_ref_parts(image: Seq<char>) -> (Seq<char>, Seq<char>, Seq<char>) {
    let (registry, rest) = split_registry(image);
    let (repository, tag) = split_tag(rest);
    (registry, repository, tag)
}

/// Splits an image reference into registry, repository and tag. Every
/// reference is read as one, so the result is always `Ok`.
pub fn parse_image_ref(image: &str) -> (r: Result<(String, String, String), OciError>)
    ensures
        r matches Ok((registry, repository, tag)) && (registry@, repository@, tag@) == image_ref_parts(image@),
{
    let v = chars_of(image);
    let vlen = v.len();
    let (registry, rest) = match find_char_in(&v, '/') {
        Some(i) => {
            assert(i < vlen);
            let first = slice_of(image, 0, i);
            assert(first@ =~= image@.take(i as int));
            if contains_char(first.as_str(), '.') || contains_char(first.as_str(), ':') {
                (first, tail_from(image, i + 1))
            } else {
                (String::from_str("registry-1.docker.io"), String::from_str(image))
            }
        },
        None => (String::from_str("registry-1.docker.io"), String::from_str("library/").concat(image)),
    };
    let rv = chars_of(rest.as_str());
    let rlen = rv.len();
    let (repository, tag) = match find_char_in(&rv, ':') {
        Some(j) => {
            assert(j < rlen);
            let repo = slice_of(rest.as_str(), 0, j);
            assert(repo@ =~= rest@.take(j as int));
            (repo, tail_from(rest.as_str(), j + 1))
        },
        None => (rest, String::from_str("latest")),
    };
    Ok((registry, repository, tag))
}

/// Writing a reference and reading it back gives its parts: a registry that
/// holds a `.` or a `:` and no `/`, a repository without `:`, and any tag.
pub proof fn lemma_image_ref_round_trip(registry: Seq<char>, repository: Seq<char>, tag: Seq<char>)
    requires
        !registry.contains('/'),
        registry.contains('.') || registry.contains(':'),
        !repository.contains(':'),
    ensures
        image_ref_parts(registry + seq!['/'] + repository + seq![':'] + tag) == (registry, repository, tag),
{
    let image = registry + seq!['/'] + repository + seq![':'] + tag;
    let k = registry.len() as int;
    assert forall|j: int| 0 <= j < k implies image[j] != '/' by {
        assert(image[j] == registry[j]);
        if image[j] == '/' {
            assert(registry.contains('/'));
        }
    }
    assert(image[k] == '/');
    crate::text::lemma_first_index_at(image, '/', k);
    assert(image.take(k) =~= registry);
    let rest = image.skip(k + 1);
    assert(rest =~= repository + seq![':'] + tag);
    let m = repository.len() as int;
    assert forall|j: int| 0 <= j < m implies rest[j] != ':' by {
        assert(rest[j] == repository[j]);
        if rest[j] == ':' {
            assert(repository.contains(':'));
        }
    }
    assert(rest[m] == ':');
    crate::text::lemma_first_index_at(rest, ':', m);
    assert(rest.take(m) =~= repository);
    assert(rest.skip(m + 1) =~= tag);
}

/// A reference whose part before the first `/` holds neither `.` nor `:`
/// names a repository on Docker Hub: the registry is
/// `registry-1.docker.io`, the repository is the whole reference up to its
/// first `:`, and the tag is what follows that `:`, or `latest` when the
/// reference has none (`user/repo` gives `registry-1.docker.io`,
/// `user/repo`, `latest`).
pub proof fn lemma_docker_hub_repository(user: Seq<char>, path: Seq<char>, tag: Seq<char>)
    requires
        forall|i: int| 0 <= i < user.len() ==> #[trigger] user[i] != '/' && user[i] != '.' && user[i] != ':',
        forall|i: int| 0 <= i < path.len() ==> #[trigger] path[i] != ':',
    ensures
        image_ref_parts(user + seq!['/'] + path) == ("registry-1.docker.io"@, user + seq!['/'] + path, "latest"@),
        image_ref_parts(user + seq!['/'] + path + seq![':'] + tag) == (
            "registry-1.docker.io"@,
            user + seq!['/'] + path,
            tag,
        ),
{
    let k = user.len() as int;
    let repo = user + seq!['/'] + path;
    let tagged = repo + seq![':'] + tag;
    assert(!user.contains('.'));
    assert(!user.contains(':'));
    // The untagged reference.
    assert forall|j: int| 0 <= j < k implies repo[j] != '/' by {
        assert(repo[j] == user[j]);
    }
    assert(repo[k] == '/');
    crate::text::lemma_first_index_at(repo, '/', k);
    assert(repo.take(k) =~= user);
    assert forall|j: int| 0 <= j < repo.len() implies repo[j] != ':' by {
        if j < k {
            assert(repo[j] == user[j]);
        } else if j > k {
            assert(repo[j] == path[j - k - 1]);
        }
    }
    crate::text::lemma_first_index_none(repo, ':');
    // The tagged reference.
    assert forall|j: int| 0 <= j < k implies tagged[j] != '/' by {
        assert(tagged[j] == user[j]);
    }
    assert(tagged[k] == '/');
    crate::text::lemma_first_index_at(tagged, '/', k);
    assert(tagged.take(k) =~= user);
    let m = repo.len() as int;
    assert forall|j: int| 0 <= j < m implies tagged[j] != ':' by {
        assert(tagged[j] == repo[j]);
    }
    assert(tagged[m] == ':');
    crate::text::lemma_first_index_at(tagged, ':', m);
    assert(tagged.take(m) =~= repo);
    assert(tagged.skip(m + 1) =~= tag);
    reveal_strlit("registry-1.docker.io");
}

/// An image named by a bare name, without `/` or `:`, is the official image
/// of that name on Docker Hub, at the tag `latest`.
pub proof fn lemma_official_image(name: Seq<char>)
    requires
        !name.contains('/'),
        !name.contains(':'),
    ensures
        image_ref_parts(name) == (docker_hub_registry(), "library/"@ + name, "latest"@),
{
    crate::text::lemma_first_index_none(name, '/');
    let rest = "library/"@ + name;
    reveal_strlit("library/");
    assert forall|j: int| 0 <= j < rest.len() implies rest[j] != ':' by {
        if j >= 8 {
            assert(rest[j] == name[j - 8]);
            if rest[j] == ':' {
                assert(name.contains(':'));
            }
        }
    }
    crate::text::lemma_first_index_none(rest, ':');
}

// ----------------------------------------------------------------------------
// The builder
// ----------------------------------------------------------------------------

/// A character kept in a VM name: an ASCII letter or digit, `_` or `-`.
pub open spec fn is_name_char(c: char) -> bool {
    ('a' <= c <= 'z') || ('A' <= c <= 'Z') || ('0' <= c <= '9') || c == '_' || c == '-'
}

/// At most the first 64 characters of `s`.
pub open spec fn at_most_64(s: Seq<char>) -> Seq<char> {
    if s.len() <= 64 {
        s
    } else {
        s.take(64)
    }
}

/// A requested VM name with every other character dropped, cut to 64.
pub open spec fn sanitized_name(name: Seq<char>) -> Seq<char> {
    at_most_64(name.filter(|c: char| is_name_char(c)))
}

proof fn lemma_filter_keeps_clean(s: Seq<char>)
    requires
        forall|i: int|
            0 <= i < s.len() ==> ('a' <= #[trigger] s[i] <= 'z') || ('A' <= s[i] <= 'Z') || ('0' <= s[i] <= '9')
                || s[i] == '_' || s[i] == '-',
    ensures
        s.filter(|c: char| is_name_char(c)) == s,
    decreases s.len(),
{
    reveal(Seq::filter);
    if s.len() > 0 {
        let d = s.drop_last();
        assert forall|i: int| 0 <= i < d.len() implies ('a' <= #[trigger] d[i] <= 'z') || ('A' <= d[i] <= 'Z')
            || ('0' <= d[i] <= '9') || d[i] == '_' || d[i] == '-' by {
            assert(d[i] == s[i]);
        }
        lemma_filter_keeps_clean(d);
        assert(s.last() == s[s.len() - 1]);
        assert(d.push(s.last()) =~= s);
    }
}

/// A requested VM name made only of ASCII letters of either case, ASCII
/// digits, `_` and `-`, at most 64 of them, is kept exactly as requested.
pub proof fn lemma_clean_name_kept(name: Seq<char>)
    requires
        name.len() <= 64,
        forall|i: int|
            0 <= i < name.len() ==> ('a' <= #[trigger] name[i] <= 'z') || ('A' <= name[i] <= 'Z') || ('0'
                <= name[i] <= '9') || name[i] == '_' || name[i] == '-',
    ensures
        sanitized_name(name) == name,
{
    lemma_filter_keeps_clean(name);
}

/// Sanitising drops exactly the other characters: inserting a character that
/// is not an ASCII letter, digit, `_` or `-` anywhere in a name leaves the
/// sanitised name as it was, and every character of a sanitised name is one
/// of those, at most 64 in all.
pub proof fn lemma_sanitize_drops_others(a: Seq<char>, c: char, b: Seq<char>)
    requires
        !(('a' <= c <= 'z') || ('A' <= c <= 'Z') || ('0' <= c <= '9') || c == '_' || c == '-'),
    ensures
        sanitized_name(a + seq![c] + b) == sanitized_name(a + b),
        sanitized_name(a + b).len() <= 64,
        forall|i: int|
            0 <= i < sanitized_name(a + b).len() ==> ('a' <= #[trigger] sanitized_name(a + b)[i] <= 'z') || (
            'A' <= sanitized_name(a + b)[i] <= 'Z') || ('0' <= sanitized_name(a + b)[i] <= '9')
                || sanitized_name(a + b)[i] == '_' || sanitized_name(a + b)[i] == '-',
{
    let p = |x: char| is_name_char(x);
    Seq::filter_distributes_over_add(a + seq![c], b, p);
    Seq::filter_distributes_over_add(a, seq![c], p);
    Seq::filter_distributes_over_add(a, b, p);
    reveal_with_fuel(Seq::filter, 2);
    assert(seq![c].drop_last() =~= Seq::<char>::empty());
    assert(!p(c));
    assert(seq![c].last() == c);
    assert(seq![c].filter(p) =~= Seq::<char>::empty());
    assert((a + seq![c] + b).filter(p) == (a + seq![c]).filter(p) + b.filter(p));
    assert((a + seq![c]).filter(p) == a.filter(p) + seq![c].filter(p));
    assert((a + seq![c]).filter(p) =~= a.filter(p));
    assert((a + b).filter(p) == a.filter(p) + b.filter(p));
    let f = (a + b).filter(p);
    let s = sanitized_name(a + b);
    assert forall|i: int| 0 <= i < s.len() implies is_name_char(#[trigger] s[i]) by {
        (a + b).lemma_filter_pred(p, i);
        assert(s[i] == f[i]);
    }
}

fn sanitize_name(name: &str) -> (r: String)
    ensures
        r@ == sanitized_name(name@),
{
    let v = chars_of(name);
    let n = v.len();
    let mut out = String::new();
    let ghost p = |c: char| is_name_char(c);
    let mut i: usize = 0;
    while i < n
        invariant
            n == v@.len(),
            v@ == name@,
            i <= n,
            out@ == at_most_64(v@.take(i as int).filter(p)),
            p == (|c: char| is_name_char(c)),
        decreases n - i,
    {
        let c = v[i];
        let keep = ('a' <= c && c <= 'z') || ('A' <= c && c <= 'Z') || ('0' <= c && c <= '9') || c == '_'
            || c == '-';
        proof {
            let t = v@.take(i as int + 1);
            assert(t.drop_last() =~= v@.take(i as int));
            assert(t.last() == c);
            reveal_with_fuel(Seq::filter, 1);
            assert(keep == p(c));
        }
        let ghost f = v@.take(i as int).filter(p);
        if keep && out.unicode_len() < 64 {
            push_char(&mut out, c);
            proof {
                assert(f.len() < 64);
                assert(v@.take(i as int + 1).filter(p) == f.push(c));
            }
        } else if keep {
            proof {
                assert(f.len() >= 64);
                assert(f.push(c).take(64) =~= f.take(64));
            }
        }
        i = i + 1;
    }
    assert(v@.take(n as int) =~= name@);
    out
}

/// The settings of a root filesystem to build.
pub struct RootfsBuilder {
    image: String,
    arch: Arch,
    name: String,
    credentials: Option<Credentials>,
    ttl_h: u64,
}

impl RootfsBuilder {
    /// The image reference.
    pub closed spec fn spec_image(&self) -> Seq<char> {
        self.image@
    }

    /// The target architecture.
    pub closed spec fn spec_arch(&self) -> Arch {
        self.arch
    }

    /// The VM name.
    pub closed spec fn spec_name(&self) -> Seq<char> {
        self.name@
    }

    /// The registry credentials.
    pub closed spec fn spec_credentials(&self) -> Option<Credentials> {
        self.credentials
    }

    /// How long, in hours, the pulled layers are kept.
    pub closed spec fn spec_ttl_hours(&self) -> u64 {
        self.ttl_h
    }
}

impl Default for RootfsBuilder {
    fn default() -> (r: Self)
        ensures
            r.spec_image() == Seq::<char>::empty(),
            r.spec_arch() == Arch::Amd64,
            r.spec_name() == Seq::<char>::empty(),
            r.spec_credentials() is None,
            r.spec_ttl_hours() == 24,
    {
        RootfsBuilder {
            image: String::new(),
            arch: Arch::Amd64,
            name: String::new(),
            credentials: None,
            ttl_h: 24,
        }
    }
}

impl RootfsBuilder {
    /// A builder with no image or name, for amd64, without credentials,
    /// keeping layers 24 hours.
    pub fn new() -> (r: Self)
        ensures
            r.spec_image() == Seq::<char>::empty(),
            r.spec_arch() == Arch::Amd64,
            r.spec_name() == Seq::<char>::empty(),
            r.spec_credentials() is None,
            r.spec_ttl_hours() == 24,
    {
        Self::default()
    }

    /// Sets the image reference.
    pub fn image(self, image: &str) -> (r: Self)
        ensures
            r.spec_image() == image@,
            r.spec_arch() == self.spec_arch(),
            r.spec_name() == self.spec_name(),
            r.spec_credentials() == self.spec_credentials(),
            r.spec_ttl_hours() == self.spec_ttl_hours(),
    {
        let mut b = self;
        b.image = String::from_str(image);
        b
    }

    /// Sets the target architecture.
    pub fn arch(self, arch: Arch) -> (r: Self)
        ensures
            r.spec_image() == self.spec_image(),
            r.spec_arch() == arch,
            r.spec_name() == self.spec_name(),
            r.spec_credentials() == self.spec_credentials(),
            r.spec_ttl_hours() == self.spec_ttl_hours(),
    {
        let mut b = self;
        b.arch = arch;
        b
    }

    /// Sets the VM name, keeping only ASCII letters, digits, `_` and `-`, and
    /// at most 64 of them.
    pub fn name(self, name: &str) -> (r: Self)
        ensures
            r.spec_image() == self.spec_image(),
            r.spec_arch() == self.spec_arch(),
            r.spec_name() == sanitized_name(name@),
            r.spec_credentials() == self.spec_credentials(),
            r.spec_ttl_hours() == self.spec_ttl_hours(),
    {
        let mut b = self;
        b.name = sanitize_name(name);
        b
    }

    /// Sets the registry credentials.
    pub fn credentials(self, creds: Credentials) -> (r: Self)
        ensures
            r.spec_image() == self.spec_image(),
            r.spec_arch() == self.spec_arch(),
            r.spec_name() == self.spec_name(),
            r.spec_credentials() == Some(creds),
            r.spec_ttl_hours() == self.spec_ttl_hours(),
    {
        let mut b = self;
        b.credentials = Some(creds);
        b
    }

    /// Sets how long, in hours, the pulled layers are kept.
    pub fn ttl_hours(self, hours: u64) -> (r: Self)
        ensures
            r.spec_image() == self.spec_image(),
            r.spec_arch() == self.spec_arch(),
            r.spec_name() == self.spec_name(),
            r.spec_credentials() == self.spec_credentials(),
            r.spec_ttl_hours() == hours,
    {
        let mut b = self;
        b.ttl_h = hours;
        b
    }

    /// The first step of a build: the reference is split into registry,
    /// repository and tag, and the settings are handed over.
    pub fn plan(self) -> (r: Result<PullPlan, OciError>)
        ensures
            r matches Ok(p) && p.image@ == self.spec_image() && (p.registry@, p.repository@, p.tag@)
                == image_ref_parts(self.spec_image()) && p.arch == self.spec_arch() && p.name@
                == self.spec_name() && p.credentials == self.spec_credentials() && p.ttl_hours
                == self.spec_ttl_hours(),
    {
        let (registry, repository, tag) = match parse_image_ref(self.image.as_str()) {
            Ok(parts) => parts,
            Err(e) => return Err(e),
        };
        Ok(PullPlan {
            image: self.image,
            registry,
            repository,
            tag,
            arch: self.arch,
            name: self.name,
            credentials: self.credentials,
            ttl_hours: self.ttl_h,
        })
    }
}

/// What a build pulls, and for which VM.
pub struct PullPlan {
    pub image: String,
    pub registry: String,
    pub repository: String,
    pub tag: String,
    pub arch: Arch,
    pub name: String,
    pub credentials: Option<Credentials>,
    pub ttl_hours: u64,
}

// ----------------------------------------------------------------------------
// Layers
// ----------------------------------------------------------------------------

/// The summed size of the layers.
pub open spec fn total_size(layers: Seq<LayerDescriptor>) -> int
    decreases layers.len(),
{
    if layers.len() == 0 {
        0
    } else {
        total_size(layers.drop_last()) + layers.last().size
    }
}

proof fn lemma_total_size_prefix(layers: Seq<LayerDescriptor>, i: int)
    requires
        0 <= i <= layers.len(),
    ensures
        0 <= total_size(layers.take(i)) <= total_size(layers),
    decreases layers.len() - i,
{
    if i == layers.len() {
        assert(layers.take(i) =~= layers);
        lemma_total_size_nonneg(layers);
    } else {
        lemma_total_size_prefix(layers, i + 1);
        assert(layers.take(i + 1).drop_last() =~= layers.take(i));
        lemma_total_size_nonneg(layers.take(i));
    }
}

proof fn lemma_total_size_nonneg(layers: Seq<LayerDescriptor>)
    ensures
        total_size(layers) >= 0,
    decreases layers.len(),
{
    if layers.len() > 0 {
        lemma_total_size_nonneg(layers.drop_last());
    }
}

/// The summed size of the layers, refused above `MAX_ROOTFS_SIZE`.
pub fn check_rootfs_size(manifest: &ImageManifest) -> (r: Result<u64, OciError>)
    requires
        total_size(manifest.layers@) <= u64::MAX,
    ensures
        total_size(manifest.layers@) <= MAX_ROOTFS_SIZE ==> (r matches Ok(t) && t == total_size(
            manifest.layers@,
        )),
        total_size(manifest.layers@) > MAX_ROOTFS_SIZE ==> (r matches Err(OciError::RootfsTooLarge(t))
            && t == total_size(manifest.layers@)),
{
    let n = manifest.layers.len();
    let mut sum: u64 = 0;
    let mut i: usize = 0;
    while i < n
        invariant
            n == manifest.layers@.len(),
            i <= n,
            total_size(manifest.layers@) <= u64::MAX,
            sum == total_size(manifest.layers@.take(i as int)),
        decreases n - i,
    {
        proof {
            lemma_total_size_prefix(manifest.layers@, i as int + 1);
            assert(manifest.layers@.take(i as int + 1).drop_last() =~= manifest.layers@.take(i as int));
        }
        sum = sum + manifest.layers[i].size;
        i = i + 1;
    }
    assert(manifest.layers@.take(n as int) =~= manifest.layers@);
    if sum > MAX_ROOTFS_SIZE {
        return Err(OciError::RootfsTooLarge(sum));
    }
    Ok(sum)
}

/// Where the files of one layer are kept in the store.
#[derive(Debug)]
pub struct LayerPaths {
    /// The hex digest (the layer's digest without `sha256:`).
    pub digest: String,
    /// The compressed layer.
    pub blob: String,
    /// The layer unpacked.
    pub extracted: String,
    /// The pull record of the layer.
    pub meta: String,
}

/// Where the file derived from the layer `digest` with the suffix `suffix` is kept.
pub open spec fn blob_file(store: Seq<char>, digest: Seq<char>, suffix: Seq<char>) -> Seq<char> {
    path_join(path_join(store, "blobs/sha256"@), digest + suffix)
}

/// The paths of a layer in the store. A layer whose digest (without
/// `sha256:`) is not 64 hexadecimal digits is refused, so that no digest can
/// name a path outside the blob directory.
pub fn layer_paths(store: &Store, layer: &LayerDescriptor) -> (r: Result<LayerPaths, OciError>)
    ensures
        !valid_digest_spec(digest_hex(layer.digest@)) ==> (r matches Err(OciError::InvalidRef(x))
            && x@ == layer.digest@),
        valid_digest_spec(digest_hex(layer.digest@)) ==> (r matches Ok(p) && p.digest@ == digest_hex(
            layer.digest@,
        ) && p.blob@ == blob_file(store@, p.digest@, Seq::<char>::empty()) && p.extracted@ == blob_file(
            store@,
            p.digest@,
            "-extracted"@,
        ) && p.meta@ == blob_file(store@, p.digest@, "-meta.json"@) && has_suffix(
            p.extracted@,
            "-extracted"@,
        )),
{
    proof {
        reveal_strlit("sha256:");
    }
    let digest = trim_prefixes(layer.digest.as_str(), "sha256:");
    if !is_valid_digest(digest.as_str()) {
        return Err(OciError::InvalidRef(String::from_str(layer.digest.as_str())));
    }
    let blob = store.blob_path(digest.as_str());
    assert(digest@ + Seq::<char>::empty() =~= digest@);
    let extracted = store.blob_path(String::from_str(digest.as_str()).concat("-extracted").as_str());
    let meta = store.blob_path(String::from_str(digest.as_str()).concat("-meta.json").as_str());
    proof {
        let d = digest@ + "-extracted"@;
        let b = path_join(store@, "blobs/sha256"@);
        let x = path_join(b, d);
        let k = "-extracted"@.len() as int;
        assert(d.skip(d.len() - k) =~= "-extracted"@);
        assert(x.skip(x.len() - k) =~= d.skip(d.len() - k));
    }
    Ok(LayerPaths { digest, blob, extracted, meta })
}

proof fn lemma_hex_name_admitted(d: Seq<char>, s: Seq<char>)
    requires
        valid_digest_spec(d),
        forall|i: int| 0 <= i < s.len() - 1 ==> !(#[trigger] s[i] == '.' && s[i + 1] == '.'),
    ensures
        entry_admitted(d + s),
{
    let r = d + s;
    assert(d.len() > 0) by {
        if d.len() == 0 {
            assert(vstd::utf8::encode_utf8(d) =~= Seq::<u8>::empty()) by {
                reveal(vstd::utf8::encode_utf8);
            }
        }
    }
    assert(r[0] == d[0]);
    assert(crate::dashboard::is_hex_char(d[0]));
    assert forall|i: int| !parent_component_at(r, i) by {
        if parent_component_at(r, i) {
            if i < d.len() {
                assert(r[i] == d[i]);
                assert(crate::dashboard::is_hex_char(d[i]));
            } else {
                assert(r[i] == s[i - d.len()]);
                assert(r[i + 1] == s[i + 1 - d.len()]);
            }
        }
    }
}

/// The files of a layer whose digest is accepted lie in the blob directory:
/// each is a child of it, and none climbs out of it.
pub proof fn lemma_layer_files_inside(blobs: Seq<char>, d: Seq<char>)
    requires
        valid_digest_spec(d),
    ensures
        has_prefix(path_join(blobs, d), blobs),
        has_prefix(path_join(blobs, d + "-extracted"@), blobs),
        has_prefix(path_join(blobs, d + "-meta.json"@), blobs),
        !has_parent_component(blobs) ==> !has_parent_component(path_join(blobs, d))
            && !has_parent_component(path_join(blobs, d + "-extracted"@))
            && !has_parent_component(path_join(blobs, d + "-meta.json"@)),
{
    reveal_strlit("-extracted");
    reveal_strlit("-meta.json");
    let e = Seq::<char>::empty();
    assert(d + e =~= d);
    lemma_hex_name_admitted(d, e);
    lemma_hex_name_admitted(d, "-extracted"@);
    lemma_hex_name_admitted(d, "-meta.json"@);
    lemma_admitted_entry_stays_inside(blobs, d);
    lemma_admitted_entry_stays_inside(blobs, d + "-extracted"@);
    lemma_admitted_entry_stays_inside(blobs, d + "-meta.json"@);
}

/// What a build does with one layer.
#[derive(Debug, Clone, Copy, PartialEq, Eq, Structural)]
pub enum LayerStep {
    /// The layer is unpacked and recorded already: it is reused as it is.
    UseCached,
    /// The blob is stored but not (fully) unpacked: it is read back,
    /// unpacked and recorded.
    ExtractStored,
    /// The blob is fetched, checked against its digest, stored, unpacked and recorded.
    Download,
}

/// The step for a layer, given which of its files the store holds.
pub open spec fn layer_step_spec(blob_exists: bool, extracted_exists: bool, meta_exists: bool) -> LayerStep {
    if extracted_exists && meta_exists {
        LayerStep::UseCached
    } else if blob_exists {
        LayerStep::ExtractStored
    } else {
        LayerStep::Download
    }
}

/// Decides the step for a layer, given which of its files the store holds.
pub fn layer_step(blob_exists: bool, extracted_exists: bool, meta_exists: bool) -> (r: LayerStep)
    ensures
        r == layer_step_spec(blob_exists, extracted_exists, meta_exists),
{
    if !extracted_exists || !meta_exists {
        if blob_exists {
            LayerStep::ExtractStored
        } else {
            LayerStep::Download
        }
    } else {
        LayerStep::UseCached
    }
}

/// One task of making a layer ready.
#[derive(Debug, Clone, Copy, PartialEq, Eq, Structural)]
pub enum LayerTask {
    /// Download the blob from the registry.
    FetchBlob,
    /// Check the blob's bytes (downloaded or read back) against the layer's digest.
    CheckDigest,
    /// Write the blob into the store.
    SaveBlob,
    /// Read the blob back from the store.
    ReadStoredBlob,
    /// Unpack the blob into the layer's directory.
    Extract,
    /// Write the layer's pull record.
    SaveMeta,
}

/// The tasks of a step, in the order they are performed.
pub open spec fn layer_tasks_spec(step: LayerStep) -> Seq<LayerTask> {
    match step {
        LayerStep::UseCached => Seq::<LayerTask>::empty(),
        LayerStep::ExtractStored => seq![
            LayerTask::ReadStoredBlob,
            LayerTask::CheckDigest,
            LayerTask::Extract,
            LayerTask::SaveMeta,
        ],
        LayerStep::Download => seq![
            LayerTask::FetchBlob,
            LayerTask::CheckDigest,
            LayerTask::SaveBlob,
            LayerTask::Extract,
            LayerTask::SaveMeta,
        ],
    }
}

/// The tasks that make a layer ready, in order.
pub fn layer_tasks(step: LayerStep) -> (r: Vec<LayerTask>)
    ensures
        r@ == layer_tasks_spec(step),
{
    let mut v: Vec<LayerTask> = Vec::new();
    match step {
        LayerStep::UseCached => {},
        LayerStep::ExtractStored => {
            v.push(LayerTask::ReadStoredBlob);
            v.push(LayerTask::CheckDigest);
            v.push(LayerTask::Extract);
            v.push(LayerTask::SaveMeta);
        },
        LayerStep::Download => {
            v.push(LayerTask::FetchBlob);
            v.push(LayerTask::CheckDigest);
            v.push(LayerTask::SaveBlob);
            v.push(LayerTask::Extract);
            v.push(LayerTask::SaveMeta);
        },
    }
    assert(v@ =~= layer_tasks_spec(step));
    v
}

/// The blob's bytes are loaded (fetched or read back).
pub open spec fn is_load(t: LayerTask) -> bool {
    t == LayerTask::FetchBlob || t == LayerTask::ReadStoredBlob
}

/// The blob's bytes are used (stored or unpacked).
pub open spec fn is_use(t: LayerTask) -> bool {
    t == LayerTask::SaveBlob || t == LayerTask::Extract
}

/// Every layer's bytes are checked against its digest before they are used:
/// between loading the blob and storing or unpacking it there is always a
/// digest check, every unpacking follows a check, and a cached layer is not
/// touched at all.
pub proof fn lemma_layer_tasks_check_before_use(step: LayerStep)
    ensures
        forall|i: int, j: int|
            0 <= i < j < layer_tasks_spec(step).len() && is_load(#[trigger] layer_tasks_spec(step)[i])
                && is_use(#[trigger] layer_tasks_spec(step)[j]) ==> exists|k: int|
                i < k < j && layer_tasks_spec(step)[k] == LayerTask::CheckDigest,
        forall|j: int|
            0 <= j < layer_tasks_spec(step).len() && #[trigger] layer_tasks_spec(step)[j] == LayerTask::Extract
                ==> exists|k: int| 0 <= k < j && layer_tasks_spec(step)[k] == LayerTask::CheckDigest,
        step == LayerStep::UseCached ==> layer_tasks_spec(step).len() == 0,
{
    let t = layer_tasks_spec(step);
    if step == LayerStep::Download || step == LayerStep::ExtractStored {
        assert(t[1] == LayerTask::CheckDigest);
    }
}

/// How a layer was made ready.
#[derive(Debug, Clone, Copy, PartialEq, Eq, Structural)]
pub enum LayerOutcome {
    /// Fetched: that many bytes came from the registry.
    Downloaded(u64),
    /// Unpacked from a blob the store held.
    Extracted,
    /// Reused as it was.
    Cached,
}

/// How a layer made ready by `step` is counted, `fetched` being the number
/// of bytes that came from the registry for it (when it was fetched).
pub open spec fn layer_outcome_spec(step: LayerStep, fetched: u64) -> LayerOutcome {
    match step {
        LayerStep::UseCached => LayerOutcome::Cached,
        LayerStep::ExtractStored => LayerOutcome::Extracted,
        LayerStep::Download => LayerOutcome::Downloaded(fetched),
    }
}

/// How a layer made ready by `step` is counted: a reused layer as cached, a
/// stored blob unpacked again as neither fetched nor cached, a fetched blob
/// with the `fetched` bytes that came from the registry.
pub fn layer_outcome(step: LayerStep, fetched: u64) -> (r: LayerOutcome)
    ensures
        r == layer_outcome_spec(step, fetched),
{
    match step {
        LayerStep::UseCached => LayerOutcome::Cached,
        LayerStep::ExtractStored => LayerOutcome::Extracted,
        LayerStep::Download => LayerOutcome::Downloaded(fetched),
    }
}

/// A layer is counted as it was made ready: as reused exactly when none of
/// its tasks was performed, as fetched exactly when its blob was fetched
/// from the registry, and then with the bytes that came.
pub proof fn lemma_outcome_matches_tasks(step: LayerStep, fetched: u64)
    ensures
        layer_outcome_spec(step, fetched) is Cached <==> layer_tasks_spec(step).len() == 0,
        layer_outcome_spec(step, fetched) is Downloaded <==> layer_tasks_spec(step).contains(
            LayerTask::FetchBlob,
        ),
        layer_outcome_spec(step, fetched) is Downloaded ==> layer_outcome_spec(step, fetched)
            == LayerOutcome::Downloaded(fetched),
{
    let t = layer_tasks_spec(step);
    match step {
        LayerStep::Download => {
            assert(t[0] == LayerTask::FetchBlob);
        },
        LayerStep::ExtractStored => {
            assert forall|i: int| 0 <= i < t.len() implies t[i] != LayerTask::FetchBlob by {
                assert(t[i] == seq![
                    LayerTask::ReadStoredBlob,
                    LayerTask::CheckDigest,
                    LayerTask::Extract,
                    LayerTask::SaveMeta,
                ][i]);
            }
        },
        LayerStep::UseCached => {},
    }
}

/// The tally of a pull: the unpacked layers in order, and what was fetched.
pub struct PullProgress {
    lower_dirs: Vec<String>,
    bytes_downloaded: u64,
    layers_downloaded: u32,
    layers_cached: u32,
}

impl PullProgress {
    /// Every layer directory is one of the store's `-extracted` directories,
    /// and every layer counted as fetched or reused has its directory here.
    #[verifier::type_invariant]
    closed spec fn wf(&self) -> bool {
        &&& forall|i: int| 0 <= i < self.lower_dirs@.len() ==> has_suffix(#[trigger] self.lower_dirs@[i]@, "-extracted"@)
        &&& self.layers_downloaded + self.layers_cached <= self.lower_dirs@.len()
    }

    /// The layer directories, in the order the layers were made ready.
    pub closed spec fn spec_lower_dirs(&self) -> Seq<Seq<char>> {
        self.lower_dirs@.map_values(|s: String| s@)
    }

    /// The bytes fetched.
    pub closed spec fn spec_bytes_downloaded(&self) -> u64 {
        self.bytes_downloaded
    }

    /// The layers fetched.
    pub closed spec fn spec_layers_downloaded(&self) -> u32 {
        self.layers_downloaded
    }

    /// The layers reused.
    pub closed spec fn spec_layers_cached(&self) -> u32 {
        self.layers_cached
    }

    /// No layer yet.
    pub fn new() -> (r: Self)
        ensures
            r.spec_lower_dirs() == Seq::<Seq<char>>::empty(),
            r.spec_bytes_downloaded() == 0,
            r.spec_layers_downloaded() == 0,
            r.spec_layers_cached() == 0,
    {
        let r = PullProgress { lower_dirs: Vec::new(), bytes_downloaded: 0, layers_downloaded: 0, layers_cached: 0 };
        assert(r.spec_lower_dirs() =~= Seq::<Seq<char>>::empty());
        r
    }

    /// Adds a layer made ready in `dir` (one of the store's `-extracted` directories).
    pub fn finish_layer(&mut self, dir: String, outcome: LayerOutcome)
        requires
            has_suffix(dir@, "-extracted"@),
            outcome matches LayerOutcome::Downloaded(n) ==> old(self).spec_bytes_downloaded() + n
                <= u64::MAX && old(self).spec_layers_downloaded() < u32::MAX,
            outcome is Cached ==> old(self).spec_layers_cached() < u32::MAX,
        ensures
            final(self).spec_lower_dirs() == old(self).spec_lower_dirs().push(dir@),
            final(self).spec_bytes_downloaded() == old(self).spec_bytes_downloaded() + match outcome {
                LayerOutcome::Downloaded(n) => n,
                _ => 0u64,
            },
            final(self).spec_layers_downloaded() == old(self).spec_layers_downloaded() + if outcome is Downloaded {
                1u32
            } else {
                0u32
            },
            final(self).spec_layers_cached() == old(self).spec_layers_cached() + if outcome is Cached {
                1u32
            } else {
                0u32
            },
            final(self).spec_layers_downloaded() + final(self).spec_layers_cached()
                <= final(self).spec_lower_dirs().len(),
    {
        let mut taken = PullProgress::new();
        std::mem::swap(self, &mut taken);
        proof {
            use_type_invariant(&taken);
        }
        let ghost before = taken.spec_lower_dirs();
        let PullProgress { mut lower_dirs, mut bytes_downloaded, mut layers_downloaded, mut layers_cached } =
            taken;
        let ghost old_dirs = lower_dirs@;
        match outcome {
            LayerOutcome::Downloaded(n) => {
                bytes_downloaded = bytes_downloaded + n;
                layers_downloaded = layers_downloaded + 1;
            },
            LayerOutcome::Extracted => {},
            LayerOutcome::Cached => {
                layers_cached = layers_cached + 1;
            },
        }
        lower_dirs.push(dir);
        assert(forall|i: int| 0 <= i < old_dirs.len() ==> lower_dirs@[i] == old_dirs[i]);
        *self = PullProgress { lower_dirs, bytes_downloaded, layers_downloaded, layers_cached };
        assert(self.spec_lower_dirs() =~= before.push(dir@));
    }

    /// Adds a layer made ready in `dir` (one of the store's `-extracted`
    /// directories) by `step`, `fetched` bytes having come from the registry
    /// for it when it was fetched: only a fetched layer adds to the bytes
    /// and layers fetched, only a reused one to the layers reused.
    pub fn finish_step(&mut self, dir: String, step: LayerStep, fetched: u64)
        requires
            has_suffix(dir@, "-extracted"@),
            step == LayerStep::Download ==> old(self).spec_bytes_downloaded() + fetched <= u64::MAX
                && old(self).spec_layers_downloaded() < u32::MAX,
            step == LayerStep::UseCached ==> old(self).spec_layers_cached() < u32::MAX,
        ensures
            final(self).spec_lower_dirs() == old(self).spec_lower_dirs().push(dir@),
            final(self).spec_bytes_downloaded() == old(self).spec_bytes_downloaded() + if step
                == LayerStep::Download {
                fetched
            } else {
                0u64
            },
            final(self).spec_layers_downloaded() == old(self).spec_layers_downloaded() + if step
                == LayerStep::Download {
                1u32
            } else {
                0u32
            },
            final(self).spec_layers_cached() == old(self).spec_layers_cached() + if step
                == LayerStep::UseCached {
                1u32
            } else {
                0u32
            },
    {
        let outcome = layer_outcome(step, fetched);
        self.finish_layer(dir, outcome);
    }

    /// The layer directories, in manifest order (the base layer first).
    pub fn lower_dirs(&self) -> (r: &Vec<String>)
        ensures
            r@.map_values(|s: String| s@) == self.spec_lower_dirs(),
    {
        &self.lower_dirs
    }

    /// The layer directories from the top layer down: the order in which
    /// `fuse-overlayfs` takes them, so that each layer overrides the ones
    /// below it.
    pub fn lower_dirs_top_first(&self) -> (r: Vec<String>)
        ensures
            texts(r@) == self.spec_lower_dirs().reverse(),
    {
        let n = self.lower_dirs.len();
        let mut v: Vec<String> = Vec::new();
        let mut i: usize = n;
        while i > 0
            invariant
                n == self.lower_dirs@.len(),
                i <= n,
                v@.len() == n - i,
                forall|j: int| 0 <= j < n - i ==> (#[trigger] v@[j])@ == self.lower_dirs@[n - 1 - j]@,
            decreases i,
        {
            i = i - 1;
            let d = String::from_str(self.lower_dirs[i].as_str());
            v.push(d);
        }
        assert(texts(v@) =~= self.spec_lower_dirs().reverse());
        v
    }

    /// The bytes fetched.
    pub fn bytes_downloaded(&self) -> (r: u64)
        ensures
            r == self.spec_bytes_downloaded(),
    {
        self.bytes_downloaded
    }

    /// The layers fetched.
    pub fn layers_downloaded(&self) -> (r: u32)
        ensures
            r == self.spec_layers_downloaded(),
    {
        self.layers_downloaded
    }

    /// The layers reused.
    pub fn layers_cached(&self) -> (r: u32)
        ensures
            r == self.spec_layers_cached(),
    {
        self.layers_cached
    }

    /// The record of the pull of `image`, of `bytes_total` bytes in all.
    pub fn record(&self, image: &str, bytes_total: u64) -> (r: VmRecord)
        ensures
            r.image@ == image@,
            r.layers@.map_values(|s: String| s@) == self.spec_lower_dirs().map_values(
                |d: Seq<char>| layer_name(d),
            ),
            r.layers_downloaded == self.spec_layers_downloaded(),
            r.layers_cached == self.spec_layers_cached(),
            r.bytes_downloaded == self.spec_bytes_downloaded(),
            r.bytes_total == bytes_total,
            r.layers_downloaded + r.layers_cached <= r.layers@.len(),
    {
        proof {
            use_type_invariant(self);
        }
        let n = self.lower_dirs.len();
        let mut layers: Vec<String> = Vec::new();
        let mut i: usize = 0;
        while i < n
            invariant
                n == self.lower_dirs@.len(),
                i <= n,
                layers@.len() == i,
                forall|j: int| 0 <= j < i ==> (#[trigger] layers@[j])@ == layer_name(self.lower_dirs@[j]@),
            decreases n - i,
        {
            let name = layer_name_of(self.lower_dirs[i].as_str());
            layers.push(name);
            i = i + 1;
        }
        assert(layers@.map_values(|s: String| s@) =~= self.spec_lower_dirs().map_values(
            |d: Seq<char>| layer_name(d),
        ));
        VmRecord {
            image: String::from_str(image),
            layers,
            layers_downloaded: self.layers_downloaded,
            layers_cached: self.layers_cached,
            bytes_downloaded: self.bytes_downloaded,
            bytes_total,
        }
    }
}

/// The position of the last `/` of `p`.
pub open spec fn last_slash(p: Seq<char>) -> Option<int> {
    if exists|i: int| 0 <= i < p.len() && p[i] == '/' {
        Some(choose|i: int| 0 <= i < p.len() && p[i] == '/' && forall|j: int| i < j < p.len() ==> p[j] != '/')
    } else {
        None
    }
}

/// The part of `p` after its last `/`. For a path whose last part is neither
/// empty, `.` nor `..` (every layer directory ends with `-extracted`), this is
/// the file name of the path.
pub open spec fn last_part(p: Seq<char>) -> Seq<char> {
    match last_slash(p) {
        Some(i) => p.skip(i + 1),
        None => p,
    }
}

/// The name a layer directory is recorded under: its file name without the
/// trailing `-extracted`.
pub open spec fn layer_name(dir: Seq<char>) -> Seq<char> {
    strip_suffixes(last_part(dir), "-extracted"@)
}

fn layer_name_of(dir: &str) -> (r: String)
    ensures
        r@ == layer_name(dir@),
{
    let v = chars_of(dir);
    let n = v.len();
    let mut k: usize = n;
    while k > 0
        invariant
            n == v@.len(),
            v@ == dir@,
            k <= n,
            forall|j: int| k <= j < n ==> v@[j] != '/',
        ensures
            k <= n,
            forall|j: int| k <= j < n ==> v@[j] != '/',
            k == 0 || v@[k - 1] == '/',
        decreases k,
    {
        if v[k - 1] == '/' {
            break;
        }
        k = k - 1;
    }
    proof {
        if k > 0 {
            assert(v@[k - 1] == '/');
            let w = choose|i: int| 0 <= i < dir@.len() && dir@[i] == '/' && forall|j: int| i < j < dir@.len() ==> dir@[j] != '/';
            assert(0 <= w < dir@.len() && dir@[w] == '/');
            if w < k - 1 {
                assert(dir@[k - 1] != '/');
            } else if w > k - 1 {
                assert(dir@[w] != '/');
            }
            assert(last_part(dir@) == dir@.skip(k as int));
        } else {
            assert(last_slash(dir@) is None);
            assert(dir@.skip(0) =~= dir@);
        }
        reveal_strlit("-extracted");
    }
    let file = tail_from(dir, k);
    trim_suffixes(file.as_str(), "-extracted")
}

/// What is recorded of a pull in the VM's directory (the pull's time and
/// duration are added by the caller).
#[derive(Debug)]
pub struct VmRecord {
    pub image: String,
    pub layers: Vec<String>,
    pub layers_downloaded: u32,
    pub layers_cached: u32,
    pub bytes_downloaded: u64,
    pub bytes_total: u64,
}

// ----------------------------------------------------------------------------
// The finished root filesystem
// ----------------------------------------------------------------------------

/// Plans the mount of a pulled image for `vm`: its layers from the top
/// layer down (the last layer of the manifest first), the VM's upper and work
/// directories, at its merged directory; `found` tells whether
/// `fuse-overlayfs` is installed.
pub fn plan_rootfs_mount(found: bool, progress: &PullProgress, vm: &VmDir) -> (r: Result<MountCommand, OverlayError>)
    ensures
        !found ==> (r matches Err(OverlayError::NotFound)),
        found ==> match first_refused_path(
            progress.spec_lower_dirs().reverse(),
            path_join(vm.base@, "upper"@),
            path_join(vm.base@, "work"@),
            path_join(vm.base@, "merged"@),
        ) {
            Some(q) => r matches Err(OverlayError::InvalidPath(x)) && x@ == q,
            None => r matches Ok(c) && c.program@ == "fuse-overlayfs"@ && c.options@ == mount_options(
                progress.spec_lower_dirs().reverse(),
                path_join(vm.base@, "upper"@),
                path_join(vm.base@, "work"@),
            ) && c.target@ == path_join(vm.base@, "merged"@),
        },
{
    let lowers = progress.lower_dirs_top_first();
    let upper = vm.upper();
    let work = vm.work();
    let merged = vm.merged();
    plan_overlay_mount(found, &lowers, upper.as_str(), work.as_str(), merged.as_str())
}

/// The vhost-user socket of a VM: its merged directory with the extension
/// `sock` (the merged directory always ends with the file name `merged`).
pub fn socket_path(vm: &VmDir) -> (r: String)
    ensures
        r@ == path_join(vm.base@, "merged"@) + ".sock"@,
{
    vm.merged().concat(".sock")
}

/// A root filesystem ready for a VM: the merged tree, the socket it is
/// served on, and the overlay mount that holds it.
pub struct Rootfs {
    pub merged: String,
    pub socket: String,
    overlay: OverlayMount,
}

impl Rootfs {
    /// The root filesystem of `vm`, mounted by `overlay`.
    pub fn new(vm: &VmDir, overlay: OverlayMount) -> (r: Rootfs)
        ensures
            r.spec_merged() == path_join(vm.base@, "merged"@),
            r.spec_socket() == path_join(vm.base@, "merged"@) + ".sock"@,
            r.spec_overlay() == overlay,
    {
        Rootfs { merged: vm.merged(), socket: socket_path(vm), overlay }
    }

    /// The merged tree.
    pub closed spec fn spec_merged(&self) -> Seq<char> {
        self.merged@
    }

    /// The socket the tree is served on.
    pub closed spec fn spec_socket(&self) -> Seq<char> {
        self.socket@
    }

    /// The overlay mount that holds the tree.
    pub closed spec fn spec_overlay(&self) -> OverlayMount {
        self.overlay
    }

    /// The overlay mount that holds the tree.
    pub fn overlay(&self) -> (r: &OverlayMount)
        ensures
            *r == self.spec_overlay(),
    {
        &self.overlay
    }
}

} // verus!
