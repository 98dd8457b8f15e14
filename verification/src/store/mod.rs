//! The on-disk layout of the content-addressed store:
//!
//! ```text
//! <data dir>/kyernal/
//! ├── blobs/sha256/      deduplicated OCI layers
//! └── vms/
//!     └── {name}/
//!         ├── upper/     writes of the VM
//!         ├── work/      overlayfs work directory
//!         └── merged/    the directory virtiofsd serves
//! ```
//!
//! Paths are held as text; `path_join` is the Unix meaning of `Path::join`.

use vstd::prelude::*;
use crate::text::{chars_of, push_char};

verus! {

/// `base` joined with `p` as `PathBuf::push` does on Unix: an absolute `p`
/// replaces `base`; otherwise a separator is inserted unless `base` is empty
/// or already ends with one.
pub open spec fn path_join(base: Seq<char>, p: Seq<char>) -> Seq<char> {
    if p.len() > 0 && p[0] == '/' {
        p
    } else if base.len() == 0 || base.last() == '/' {
        base + p
    } else {
        base + seq!['/'] + p
    }
}

/// Joins `p` onto `base` (see `path_join`).
pub fn join_path(base: &str, p: &str) -> (r: String)
    ensures
        r@ == path_join(base@, p@),
{
    let pv = chars_of(p);
    if pv.len() > 0 && pv[0] == '/' {
        return String::from_str(p);
    }
    let bv = chars_of(base);
    if bv.len() == 0 || bv[bv.len() - 1] == '/' {
        String::from_str(base).concat(p)
    } else {
        let mut r = String::from_str(base);
        push_char(&mut r, '/');
        r.concat(p)
    }
}

/// Joining distinct relative paths onto one base gives distinct paths.
pub proof fn lemma_join_distinct(base: Seq<char>, p: Seq<char>, q: Seq<char>)
    requires
        !(p.len() > 0 && p[0] == '/'),
        !(q.len() > 0 && q[0] == '/'),
        p != q,
    ensures
        path_join(base, p) != path_join(base, q),
{
    let head = if base.len() == 0 || base.last() == '/' { base } else { base + seq!['/'] };
    assert(path_join(base, p) =~= head + p);
    assert(path_join(base, q) =~= head + q);
    if head + p == head + q {
        assert((head + p).skip(head.len() as int) =~= p);
        assert((head + q).skip(head.len() as int) =~= q);
    }
}

/// Blobs are addressed by content: distinct (relative) digests are kept at
/// distinct paths, and where a blob is kept depends on nothing but the store
/// and the digest, so every VM built on a layer shares its one copy.
pub proof fn lemma_blob_paths_distinct(store: Seq<char>, d1: Seq<char>, d2: Seq<char>)
    requires
        !(d1.len() > 0 && d1[0] == '/'),
        !(d2.len() > 0 && d2[0] == '/'),
        d1 != d2,
    ensures
        path_join(path_join(store, "blobs/sha256"@), d1) != path_join(path_join(store, "blobs/sha256"@), d2),
{
    lemma_join_distinct(path_join(store, "blobs/sha256"@), d1, d2);
}

/// VMs of distinct names (non-empty, without `/`) write to distinct upper
/// directories: each VM's writes are its own.
pub proof fn lemma_vm_uppers_distinct(store: Seq<char>, n1: Seq<char>, n2: Seq<char>)
    requires
        n1.len() > 0,
        n2.len() > 0,
        !n1.contains('/'),
        !n2.contains('/'),
        n1 != n2,
    ensures
        path_join(path_join(path_join(store, "vms"@), n1), "upper"@) != path_join(
            path_join(path_join(store, "vms"@), n2),
            "upper"@,
        ),
{
    let vms = path_join(store, "vms"@);
    let head = if vms.len() == 0 || vms.last() == '/' { vms } else { vms + seq!['/'] };
    reveal_strlit("upper");
    let tail = seq!['/'] + "upper"@;
    assert(n1[0] != '/') by {
        if n1[0] == '/' {
            assert(n1.contains('/'));
        }
    }
    assert(n2[0] != '/') by {
        if n2[0] == '/' {
            assert(n2.contains('/'));
        }
    }
    let b1 = path_join(vms, n1);
    let b2 = path_join(vms, n2);
    assert(b1 =~= head + n1);
    assert(b2 =~= head + n2);
    assert(b1.last() == n1.last());
    assert(n1.last() != '/') by {
        if n1.last() == '/' {
            assert(n1.contains('/'));
        }
    }
    assert(n2.last() != '/') by {
        if n2.last() == '/' {
            assert(n2.contains('/'));
        }
    }
    assert(path_join(b1, "upper"@) =~= head + n1 + tail);
    assert(path_join(b2, "upper"@) =~= head + n2 + tail);
    if head + n1 + tail == head + n2 + tail {
        assert((head + n1 + tail).subrange(head.len() as int, (head.len() + n1.len()) as int) =~= n1);
        assert((head + n2 + tail).subrange(head.len() as int, (head.len() + n2.len()) as int) =~= n2);
        assert((head + n1 + tail).len() == (head + n2 + tail).len());
    }
}

/// The errors of the store.
#[derive(Debug)]
pub enum StoreError {
    Io(std::io::Error),
    Json(serde_json::Error),
}

impl From<std::io::Error> for StoreError {
    fn from(e: std::io::Error) -> (r: Self) {
        StoreError::Io(e)
    }
}

impl vstd::std_specs::convert::FromSpecImpl<std::io::Error> for StoreError {
    open spec fn obeys_from_spec() -> bool {
        true
    }

    open spec fn from_spec(e: std::io::Error) -> Self {
        StoreError::Io(e)
    }
}

/// The root of the store on disk.
pub struct Store {
    root: String,
}

/// The root a store takes in a given user data directory, or in
/// `/var/lib/kyernal` when the system names none.
pub open spec fn store_root(data_dir: Option<Seq<char>>) -> Seq<char> {
    let base = match data_dir {
        Some(d) => d,
        None => "/var/lib/kyernal"@,
    };
    path_join(base, "kyernal"@)
}

impl View for Store {
    type V = Seq<char>;

    closed spec fn view(&self) -> Seq<char> {
        self.root@
    }
}

impl Store {
    /// The store under the user data directory `data_dir`, or under
    /// `/var/lib/kyernal` when there is none.
    pub fn in_data_dir(data_dir: Option<&str>) -> (s: Store)
        ensures
            s@ == store_root(
                match data_dir {
                    Some(d) => Some(d@),
                    None => None,
                },
            ),
    {
        let root = match data_dir {
            Some(d) => join_path(d, "kyernal"),
            None => join_path("/var/lib/kyernal", "kyernal"),
        };
        Store { root }
    }

    /// The root directory of the store.
    pub fn root(&self) -> (r: &str)
        ensures
            r@ == self@,
    {
        self.root.as_str()
    }

    /// The directory that holds the layer blobs.
    pub fn blobs_dir(&self) -> (r: String)
        ensures
            r@ == path_join(self@, "blobs/sha256"@),
    {
        join_path(self.root.as_str(), "blobs/sha256")
    }

    /// The directory that holds one directory per VM.
    pub fn vms_dir(&self) -> (r: String)
        ensures
            r@ == path_join(self@, "vms"@),
    {
        join_path(self.root.as_str(), "vms")
    }

    /// Where the blob (or a file derived from it) named `digest` is kept.
    pub fn blob_path(&self, digest: &str) -> (r: String)
        ensures
            r@ == path_join(path_join(self@, "blobs/sha256"@), digest@),
    {
        let dir = self.blobs_dir();
        join_path(dir.as_str(), digest)
    }

    /// The directories of the VM `name`.
    pub fn vm_dir(&self, name: &str) -> (d: VmDir)
        ensures
            d.base@ == path_join(path_join(self@, "vms"@), name@),
    {
        let dir = self.vms_dir();
        VmDir::new(join_path(dir.as_str(), name))
    }
}

/// The directories of one VM.
pub struct VmDir {
    pub base: String,
}

impl VmDir {
    pub(crate) fn new(base: String) -> (d: VmDir)
        ensures
            d.base == base,
    {
        VmDir { base }
    }

    /// Where the VM's writes go.
    pub fn upper(&self) -> (r: String)
        ensures
            r@ == path_join(self.base@, "upper"@),
    {
        join_path(self.base.as_str(), "upper")
    }

    /// The overlayfs work directory.
    pub fn work(&self) -> (r: String)
        ensures
            r@ == path_join(self.base@, "work"@),
    {
        join_path(self.base.as_str(), "work")
    }

    /// The merged view of the layers, which virtiofsd serves.
    pub fn merged(&self) -> (r: String)
        ensures
            r@ == path_join(self.base@, "merged"@),
    {
        join_path(self.base.as_str(), "merged")
    }
}

} // verus!
