use oci_rootfs::registry::manifest::{ImageManifest, LayerDescriptor};
use oci_rootfs::store::{Store, VmDir};
use oci_rootfs::{
    check_rootfs_size, layer_paths, layer_step, layer_tasks, layer_outcome, plan_rootfs_mount, LayerOutcome, LayerStep, LayerTask,
    OciError,
    PullProgress, Rootfs,
    MAX_ROOTFS_SIZE,
};

fn layer(digest: &str, size: u64) -> LayerDescriptor {
    LayerDescriptor { digest: digest.to_string(), size }
}

#[test]
fn rootfs_size_within_limit() {
    let m = ImageManifest { layers: vec![layer("sha256:a", 100), layer("sha256:b", 250)] };
    assert_eq!(check_rootfs_size(&m).unwrap(), 350);
    let m = ImageManifest { layers: vec![] };
    assert_eq!(check_rootfs_size(&m).unwrap(), 0);
    let m = ImageManifest { layers: vec![layer("sha256:a", MAX_ROOTFS_SIZE)] };
    assert_eq!(check_rootfs_size(&m).unwrap(), 314_572_800);
}

#[test]
fn rootfs_size_over_limit() {
    let m = ImageManifest { layers: vec![layer("sha256:a", MAX_ROOTFS_SIZE), layer("sha256:b", 1)] };
    assert!(matches!(check_rootfs_size(&m), Err(OciError::RootfsTooLarge(n)) if n == MAX_ROOTFS_SIZE + 1));
}

#[test]
fn layer_steps() {
    assert_eq!(layer_step(true, true, true), LayerStep::UseCached);
    assert_eq!(layer_step(false, true, true), LayerStep::UseCached);
    assert_eq!(layer_step(true, false, true), LayerStep::ExtractStored);
    assert_eq!(layer_step(true, true, false), LayerStep::ExtractStored);
    assert_eq!(layer_step(false, true, false), LayerStep::Download);
    assert_eq!(layer_step(false, false, false), LayerStep::Download);
}

#[test]
fn progress_tallies_layers() {
    let store = Store::in_data_dir(Some("/s"));
    let mut p = PullProgress::new();
    let a = layer_paths(&store, &layer("sha256:aaaaaaaaaaaaaaaaaaaaaaaaaaaaaaaaaaaaaaaaaaaaaaaaaaaaaaaaaaaaaaaa", 1)).unwrap();
    let b = layer_paths(&store, &layer("sha256:bbbbbbbbbbbbbbbbbbbbbbbbbbbbbbbbbbbbbbbbbbbbbbbbbbbbbbbbbbbbbbbb", 1)).unwrap();
    let c = layer_paths(&store, &layer("cccccccccccccccccccccccccccccccccccccccccccccccccccccccccccccccc", 1)).unwrap();
    p.finish_layer(a.extracted.clone(), LayerOutcome::Downloaded(1000));
    p.finish_layer(b.extracted.clone(), LayerOutcome::Cached);
    p.finish_layer(c.extracted.clone(), LayerOutcome::Extracted);
    assert_eq!(p.bytes_downloaded(), 1000);
    assert_eq!(p.layers_downloaded(), 1);
    assert_eq!(p.layers_cached(), 1);
    assert_eq!(p.lower_dirs(), &vec![a.extracted, b.extracted, c.extracted]);
    let r = p.record("debian:trixie-slim", 2000);
    assert_eq!(r.image, "debian:trixie-slim");
    assert_eq!(r.layers, vec!["aaaaaaaaaaaaaaaaaaaaaaaaaaaaaaaaaaaaaaaaaaaaaaaaaaaaaaaaaaaaaaaa", "bbbbbbbbbbbbbbbbbbbbbbbbbbbbbbbbbbbbbbbbbbbbbbbbbbbbbbbbbbbbbbbb", "cccccccccccccccccccccccccccccccccccccccccccccccccccccccccccccccc"]);
    assert_eq!(r.layers_downloaded, 1);
    assert_eq!(r.layers_cached, 1);
    assert_eq!(r.bytes_downloaded, 1000);
    assert_eq!(r.bytes_total, 2000);
}

#[test]
fn record_names_follow_file_names() {
    let mut p = PullProgress::new();
    p.finish_layer("/x/y-extracted-extracted".to_string(), LayerOutcome::Extracted);
    p.finish_layer("rel-extracted".to_string(), LayerOutcome::Extracted);
    let r = p.record("i", 0);
    assert_eq!(r.layers, vec!["y", "rel"]);
}

#[test]
fn rootfs_of_vm() {
    let vm = Store::in_data_dir(Some("/s")).vm_dir("vm1");
    let cmd = oci_rootfs::overlay::fuse::plan_overlay_mount(true, &vec!["/l".to_string()], "/u", "/w", "/s/kyernal/vms/vm1/merged").unwrap();
    let mount = oci_rootfs::overlay::fuse::mount_result(true, Some(0), cmd).unwrap();
    let r = Rootfs::new(&vm, mount);
    assert_eq!(r.merged, "/s/kyernal/vms/vm1/merged");
    assert_eq!(r.socket, "/s/kyernal/vms/vm1/merged.sock");
    assert_eq!(r.overlay().merged(), "/s/kyernal/vms/vm1/merged");
    let _: &VmDir = &vm;
}

#[test]
fn layer_task_lists() {
    assert!(layer_tasks(LayerStep::UseCached).is_empty());
    assert_eq!(
        layer_tasks(LayerStep::ExtractStored),
        vec![LayerTask::ReadStoredBlob, LayerTask::CheckDigest, LayerTask::Extract, LayerTask::SaveMeta]
    );
    assert_eq!(
        layer_tasks(LayerStep::Download),
        vec![
            LayerTask::FetchBlob,
            LayerTask::CheckDigest,
            LayerTask::SaveBlob,
            LayerTask::Extract,
            LayerTask::SaveMeta
        ]
    );
}

#[test]
fn layers_are_mounted_top_first() {
    let store = Store::in_data_dir(Some("/s"));
    let vm = store.vm_dir("vm1");
    let mut p = PullProgress::new();
    p.finish_layer("/s/base-extracted".to_string(), LayerOutcome::Extracted);
    p.finish_layer("/s/mid-extracted".to_string(), LayerOutcome::Extracted);
    p.finish_layer("/s/top-extracted".to_string(), LayerOutcome::Extracted);
    assert_eq!(
        p.lower_dirs_top_first(),
        vec!["/s/top-extracted", "/s/mid-extracted", "/s/base-extracted"]
    );
    let cmd = plan_rootfs_mount(true, &p, &vm).unwrap();
    assert_eq!(
        cmd.options,
        "lowerdir=/s/top-extracted:/s/mid-extracted:/s/base-extracted,upperdir=/s/kyernal/vms/vm1/upper,workdir=/s/kyernal/vms/vm1/work"
    );
    assert_eq!(cmd.target, "/s/kyernal/vms/vm1/merged");
    assert!(matches!(
        plan_rootfs_mount(false, &p, &vm),
        Err(oci_rootfs::overlay::fuse::OverlayError::NotFound)
    ));
}

#[test]
fn hostile_layer_digests_are_refused() {
    let store = Store::in_data_dir(Some("/s"));
    for d in ["sha256:../../etc", "sha256:abc", "", "sha256:/x"] {
        assert!(matches!(layer_paths(&store, &layer(d, 1)), Err(OciError::InvalidRef(x)) if x == d));
    }
}

#[test]
fn step_decides_how_a_layer_is_counted() {
    assert_eq!(layer_outcome(LayerStep::UseCached, 7), LayerOutcome::Cached);
    assert_eq!(layer_outcome(LayerStep::ExtractStored, 7), LayerOutcome::Extracted);
    assert_eq!(layer_outcome(LayerStep::Download, 7), LayerOutcome::Downloaded(7));
}

#[test]
fn all_cached_layers_record_no_download() {
    let mut p = PullProgress::new();
    p.finish_step("/s/a-extracted".to_string(), LayerStep::UseCached, 0);
    p.finish_step("/s/b-extracted".to_string(), LayerStep::UseCached, 0);
    p.finish_step("/s/c-extracted".to_string(), LayerStep::UseCached, 0);
    let r = p.record("alpine:3.19", 300);
    assert_eq!(r.layers_downloaded, 0);
    assert_eq!(r.bytes_downloaded, 0);
    assert_eq!(r.layers_cached, 3);
    assert_eq!(r.layers, vec!["a".to_string(), "b".to_string(), "c".to_string()]);
}

#[test]
fn mixed_steps_are_tallied() {
    let mut p = PullProgress::new();
    p.finish_step("/s/a-extracted".to_string(), LayerStep::Download, 1000);
    p.finish_step("/s/b-extracted".to_string(), LayerStep::UseCached, 0);
    p.finish_step("/s/c-extracted".to_string(), LayerStep::ExtractStored, 0);
    p.finish_step("/s/d-extracted".to_string(), LayerStep::Download, 24);
    assert_eq!(p.bytes_downloaded(), 1024);
    assert_eq!(p.layers_downloaded(), 2);
    assert_eq!(p.layers_cached(), 1);
    assert_eq!(p.lower_dirs().len(), 4);
}
