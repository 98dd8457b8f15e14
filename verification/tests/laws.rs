use oci_rootfs::dashboard::is_safe_name;
use oci_rootfs::image::unpack::{verify_digest, EntryAction, EntryKind, LinkGuard};
use oci_rootfs::overlay::fuse::plan_overlay_mount;
use oci_rootfs::store::{join_path, Store};
use oci_rootfs::{layer_outcome, layer_tasks, parse_image_ref, LayerOutcome, LayerStep, LayerTask, RootfsBuilder};

#[test]
fn own_digest_is_accepted() {
    let data = b"layer bytes";
    let hex = "bcd3ad12b4caf1aba84a0e67e43aca5e2a46d2a3e3e0bb1b8be9e6a7e7b6a1a8";
    // The digest computed by the library, fed back, is accepted.
    let got = match verify_digest(data, hex) {
        Ok(()) => hex.to_string(),
        Err(oci_rootfs::image::unpack::UnpackError::DigestMismatch { got, .. }) => got,
        Err(e) => panic!("{:?}", e),
    };
    assert!(verify_digest(data, &format!("sha256:{}", got)).is_ok());
    assert!(verify_digest(data, &got).is_ok());
}

#[test]
fn reference_round_trip() {
    let (r, p, t) = parse_image_ref("registry.example:5000/team/app:1.2").unwrap();
    assert_eq!(format!("{}/{}:{}", r, p, t), "registry.example:5000/team/app:1.2");
}

#[test]
fn sanitized_names_are_dashboard_names() {
    for raw in ["VM one!", "a.b.c", "__--", "été-2024", "x/../y"] {
        let name = RootfsBuilder::new().name(raw).plan().unwrap().name;
        assert_eq!(is_safe_name(&name), !name.is_empty(), "{}", name);
    }
}

#[test]
fn safe_names_stay_in_vms_dir() {
    let store = Store::in_data_dir(Some("/data"));
    let vms = store.vms_dir();
    for name in ["vm1", "a.b", "x-y_z"] {
        assert!(is_safe_name(name));
        let dir = store.vm_dir(name).base;
        assert!(dir.starts_with(&vms));
        assert_eq!(dir, join_path(&vms, name));
        assert!(!dir[vms.len()..].contains(".."));
    }
}

#[test]
fn distinct_digests_distinct_blobs() {
    let store = Store::in_data_dir(Some("/data"));
    assert_ne!(store.blob_path("aa"), store.blob_path("ab"));
    assert_ne!(store.vm_dir("a").upper(), store.vm_dir("b").upper());
}

#[test]
fn mount_options_name_their_paths() {
    let a = plan_overlay_mount(true, &vec!["/a".to_string(), "/b".to_string()], "/u", "/w", "/m").unwrap();
    let b = plan_overlay_mount(true, &vec!["/a/b".to_string()], "/u", "/w", "/m").unwrap();
    assert_ne!(a.options, b.options);
}

#[test]
fn unpacked_entries_never_go_through_earlier_links() {
    let entries = [
        ("bin", EntryKind::Symlink),
        ("usr/bin/", EntryKind::Other),
        ("usr/bin/sh", EntryKind::Symlink),
        ("bin/sh", EntryKind::Other),
        ("usr/bin/sh/x", EntryKind::Other),
        ("./usr/bin/dash", EntryKind::Other),
    ];
    let mut guard = LinkGuard::new();
    let actions: Vec<EntryAction> = entries.iter().map(|(p, k)| guard.decide(p, *k)).collect();
    assert_eq!(
        actions,
        vec![
            EntryAction::Unpack,
            EntryAction::Unpack,
            EntryAction::Unpack,
            EntryAction::Skip,
            EntryAction::Skip,
            EntryAction::Unpack,
        ]
    );
}

#[test]
fn counted_outcome_follows_the_tasks() {
    for step in [LayerStep::UseCached, LayerStep::ExtractStored, LayerStep::Download] {
        let tasks = layer_tasks(step);
        let outcome = layer_outcome(step, 5);
        assert_eq!(outcome == LayerOutcome::Cached, tasks.is_empty());
        assert_eq!(matches!(outcome, LayerOutcome::Downloaded(5)), tasks.contains(&LayerTask::FetchBlob));
    }
}
