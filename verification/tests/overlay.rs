use oci_rootfs::overlay::fuse::{
    find_virtiofsd, mount_result, plan_overlay_mount, plan_virtiofsd, safe_path_str, virtiofsd_candidates,
    OverlayError,
};

fn dirs(v: &[&str]) -> Vec<String> {
    v.iter().map(|s| s.to_string()).collect()
}

#[test]
fn safe_paths() {
    assert_eq!(safe_path_str("/a/b").unwrap(), "/a/b");
    assert!(matches!(safe_path_str("/a:b"), Err(OverlayError::InvalidPath(p)) if p == "/a:b"));
    assert!(matches!(safe_path_str("/a,b"), Err(OverlayError::InvalidPath(p)) if p == "/a,b"));
}

#[test]
fn mount_options_are_built() {
    let c = plan_overlay_mount(true, &dirs(&["/l1", "/l2", "/l3"]), "/u", "/w", "/m").unwrap();
    assert_eq!(c.program, "fuse-overlayfs");
    assert_eq!(c.options, "lowerdir=/l1:/l2:/l3,upperdir=/u,workdir=/w");
    assert_eq!(c.target, "/m");
    let c = plan_overlay_mount(true, &dirs(&["/only"]), "/u", "/w", "/m").unwrap();
    assert_eq!(c.options, "lowerdir=/only,upperdir=/u,workdir=/w");
}

#[test]
fn mount_refuses_in_order() {
    assert!(matches!(
        plan_overlay_mount(false, &dirs(&["/a:b"]), "/u", "/w", "/m"),
        Err(OverlayError::NotFound)
    ));
    assert!(matches!(
        plan_overlay_mount(true, &dirs(&["/ok", "/x,y", "/z:z"]), "/u:", "/w", "/m"),
        Err(OverlayError::InvalidPath(p)) if p == "/x,y"
    ));
    assert!(matches!(
        plan_overlay_mount(true, &dirs(&["/ok"]), "/u", "/w,", "/m:"),
        Err(OverlayError::InvalidPath(p)) if p == "/w,"
    ));
    assert!(matches!(
        plan_overlay_mount(true, &dirs(&["/ok"]), "/u", "/w", "/m:"),
        Err(OverlayError::InvalidPath(p)) if p == "/m:"
    ));
}

#[test]
fn mount_outcomes() {
    let c = plan_overlay_mount(true, &dirs(&["/l"]), "/u", "/w", "/m").unwrap();
    let m = mount_result(true, Some(0), c).unwrap();
    assert_eq!(m.merged(), "/m");
    let c = plan_overlay_mount(true, &dirs(&["/l"]), "/u", "/w", "/m").unwrap();
    assert!(matches!(mount_result(false, Some(2), c), Err(OverlayError::MountFailed(2))));
    let c = plan_overlay_mount(true, &dirs(&["/l"]), "/u", "/w", "/m").unwrap();
    assert!(matches!(mount_result(false, None, c), Err(OverlayError::MountFailed(-1))));
}

#[test]
fn virtiofsd_lookup() {
    let c = virtiofsd_candidates();
    assert_eq!(c, vec!["/usr/libexec/virtiofsd", "/usr/lib/qemu/virtiofsd", "/usr/local/bin/virtiofsd"]);
    assert_eq!(find_virtiofsd(&vec![false, true, true]), Some("/usr/lib/qemu/virtiofsd"));
    assert_eq!(find_virtiofsd(&vec![true, true, true]), Some("/usr/libexec/virtiofsd"));
    assert_eq!(find_virtiofsd(&vec![false, false, true]), Some("/usr/local/bin/virtiofsd"));
    assert_eq!(find_virtiofsd(&vec![false, false, false]), None);
}

#[test]
fn virtiofsd_command() {
    let c = plan_virtiofsd(Some("/usr/libexec/virtiofsd"), "/m.sock", "/m").unwrap();
    assert_eq!(c.program, "/usr/libexec/virtiofsd");
    assert_eq!(
        c.args,
        vec![
            "--socket-path", "/m.sock", "--shared-dir", "/m", "--cache", "auto", "--sandbox", "namespace",
            "--thread-pool-size", "1", "--flock", "--no-allow-foreign-sync"
        ]
    );
    assert!(matches!(plan_virtiofsd(None, "/a:b", "/m"), Err(OverlayError::VirtiofsdNotFound)));
    assert!(matches!(
        plan_virtiofsd(Some("/v"), "/a:b", "/m,"),
        Err(OverlayError::InvalidPath(p)) if p == "/a:b"
    ));
    assert!(matches!(
        plan_virtiofsd(Some("/v"), "/s", "/m,"),
        Err(OverlayError::InvalidPath(p)) if p == "/m,"
    ));
}
