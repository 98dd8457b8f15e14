use oci_rootfs::registry::manifest::LayerDescriptor;
use oci_rootfs::store::{join_path, Store};
use oci_rootfs::{layer_paths, socket_path};

#[test]
fn store_under_data_dir() {
    let store = Store::in_data_dir(Some("/home/u/.local/share"));
    assert_eq!(store.root(), "/home/u/.local/share/kyernal");
    assert_eq!(store.blobs_dir(), "/home/u/.local/share/kyernal/blobs/sha256");
    assert_eq!(store.vms_dir(), "/home/u/.local/share/kyernal/vms");
}

#[test]
fn store_without_data_dir() {
    let store = Store::in_data_dir(None);
    assert_eq!(store.root(), "/var/lib/kyernal/kyernal");
}

#[test]
fn blob_and_vm_paths() {
    let store = Store::in_data_dir(Some("/d/"));
    assert_eq!(store.blob_path("abc"), "/d/kyernal/blobs/sha256/abc");
    let vm = store.vm_dir("sandbox-01");
    assert_eq!(vm.base, "/d/kyernal/vms/sandbox-01");
    assert_eq!(vm.upper(), "/d/kyernal/vms/sandbox-01/upper");
    assert_eq!(vm.work(), "/d/kyernal/vms/sandbox-01/work");
    assert_eq!(vm.merged(), "/d/kyernal/vms/sandbox-01/merged");
    assert_eq!(socket_path(&vm), "/d/kyernal/vms/sandbox-01/merged.sock");
}

#[test]
fn join_follows_path_push() {
    assert_eq!(join_path("a", "b"), "a/b");
    assert_eq!(join_path("a/", "b"), "a/b");
    assert_eq!(join_path("", "b"), "b");
    assert_eq!(join_path("a", "/b"), "/b");
    assert_eq!(join_path("a", ""), "a/");
    for (base, p) in [("x/y", "z"), ("/", "etc"), ("x", "")] {
        let expected = std::path::Path::new(base).join(p);
        assert_eq!(join_path(base, p), expected.to_str().unwrap());
    }
}

#[test]
fn layer_paths_in_store() {
    let store = Store::in_data_dir(Some("/s"));
    let d = "0123abcd".repeat(8);
    let layer = LayerDescriptor { digest: format!("sha256:{}", d), size: 10 };
    let p = layer_paths(&store, &layer).unwrap();
    assert_eq!(p.digest, d);
    assert_eq!(p.blob, format!("/s/kyernal/blobs/sha256/{}", d));
    assert_eq!(p.extracted, format!("/s/kyernal/blobs/sha256/{}-extracted", d));
    assert_eq!(p.meta, format!("/s/kyernal/blobs/sha256/{}-meta.json", d));
}
