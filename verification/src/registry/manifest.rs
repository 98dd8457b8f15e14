//! The OCI documents a registry serves, as the library reads them.

use vstd::prelude::*;

verus! {

/// An OCI image index (manifest list): what the registry sends first.
#[derive(Debug)]
pub struct ImageIndex {
    pub manifests: Vec<ManifestDescriptor>,
}

/// One entry of an index: the manifest of one platform.
#[derive(Debug)]
pub struct ManifestDescriptor {
    pub digest: String,
    pub platform: Option<Platform>,
}

/// The platform that a manifest is built for.
#[derive(Debug)]
pub struct Platform {
    pub os: String,
    pub architecture: String,
}

/// The manifest of one image on one platform.
#[derive(Debug)]
pub struct ImageManifest {
    pub layers: Vec<LayerDescriptor>,
}

/// One layer of an image: its digest, and its size in bytes.
#[derive(Debug)]
pub struct LayerDescriptor {
    pub digest: String,
    pub size: u64,
}

/// The target architecture.
#[derive(Debug, Clone, Copy, PartialEq, Eq, Structural)]
pub enum Arch {
    Amd64,
    Arm64,
}

/// The OCI name of an architecture.
pub open spec fn arch_name(a: Arch) -> Seq<char> {
    match a {
        Arch::Amd64 => "amd64"@,
        Arch::Arm64 => "arm64"@,
    }
}

impl Arch {
    /// The OCI name of the architecture (`amd64` or `arm64`).
    pub fn as_oci_str(&self) -> (r: &'static str)
        ensures
            r@ == arch_name(*self),
    {
        match self {
            Arch::Amd64 => "amd64",
            Arch::Arm64 => "arm64",
        }
    }
}

} // verus!
