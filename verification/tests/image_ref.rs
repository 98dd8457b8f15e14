use oci_rootfs::registry::manifest::Arch;
use oci_rootfs::{parse_image_ref, OciError, RootfsBuilder};

#[test]
fn test_parse_image_ref() {
    let (registry, repository, tag) = parse_image_ref("debian:trixie-slim").unwrap();
    assert_eq!(registry, "registry-1.docker.io");
    assert_eq!(repository, "library/debian");
    assert_eq!(tag, "trixie-slim");
}

#[test]
fn parse_bare_name_defaults_to_latest() {
    let (registry, repository, tag) = parse_image_ref("alpine").unwrap();
    assert_eq!(registry, "registry-1.docker.io");
    assert_eq!(repository, "library/alpine");
    assert_eq!(tag, "latest");
}

#[test]
fn parse_user_repository_on_docker_hub() {
    let (registry, repository, tag) = parse_image_ref("bitnami/redis:7.2").unwrap();
    assert_eq!(registry, "registry-1.docker.io");
    assert_eq!(repository, "bitnami/redis");
    assert_eq!(tag, "7.2");
}

#[test]
fn parse_explicit_registry() {
    let (registry, repository, tag) = parse_image_ref("ghcr.io/owner/repo:v1.0").unwrap();
    assert_eq!(registry, "ghcr.io");
    assert_eq!(repository, "owner/repo");
    assert_eq!(tag, "v1.0");
}

#[test]
fn parse_registry_with_port_and_no_tag() {
    let (registry, repository, tag) = parse_image_ref("localhost:5000/app").unwrap();
    assert_eq!(registry, "localhost:5000");
    assert_eq!(repository, "app");
    assert_eq!(tag, "latest");
}

#[test]
fn parse_splits_tag_at_first_colon() {
    let (registry, repository, tag) = parse_image_ref("quay.io/a/b:x:y").unwrap();
    assert_eq!(registry, "quay.io");
    assert_eq!(repository, "a/b");
    assert_eq!(tag, "x:y");
}

#[test]
fn parse_empty_reference() {
    let (registry, repository, tag) = parse_image_ref("").unwrap();
    assert_eq!(registry, "registry-1.docker.io");
    assert_eq!(repository, "library/");
    assert_eq!(tag, "latest");
}

#[test]
fn builder_plan_carries_settings() {
    let plan = RootfsBuilder::new()
        .image("node:22-slim")
        .name("sandbox-01")
        .arch(Arch::Arm64)
        .ttl_hours(48)
        .plan()
        .unwrap();
    assert_eq!(plan.image, "node:22-slim");
    assert_eq!(plan.registry, "registry-1.docker.io");
    assert_eq!(plan.repository, "library/node");
    assert_eq!(plan.tag, "22-slim");
    assert_eq!(plan.arch, Arch::Arm64);
    assert_eq!(plan.name, "sandbox-01");
    assert_eq!(plan.ttl_hours, 48);
    assert!(plan.credentials.is_none());
}

#[test]
fn builder_defaults() {
    let plan = RootfsBuilder::new().plan().unwrap();
    assert_eq!(plan.image, "");
    assert_eq!(plan.arch, Arch::Amd64);
    assert_eq!(plan.name, "");
    assert_eq!(plan.ttl_hours, 24);
    assert!(plan.credentials.is_none());
}

#[test]
fn builder_name_drops_other_characters() {
    let plan = RootfsBuilder::new().name("my vm!/../é_ok-1").plan().unwrap();
    assert_eq!(plan.name, "myvm_ok-1");
}

#[test]
fn builder_name_keeps_at_most_64() {
    let long: String = std::iter::repeat("ab.").take(40).collect();
    let plan = RootfsBuilder::new().name(&long).plan().unwrap();
    assert_eq!(plan.name.len(), 64);
    assert!(plan.name.chars().all(|c| c == 'a' || c == 'b'));
}

#[test]
fn builder_credentials_are_kept() {
    let creds = oci_rootfs::registry::auth::Credentials {
        username: "user".to_string(),
        password: "pw".to_string(),
    };
    let plan = RootfsBuilder::new().credentials(creds).plan().unwrap();
    let c = plan.credentials.unwrap();
    assert_eq!(c.username, "user");
    assert_eq!(c.password, "pw");
}

#[test]
fn oci_error_wraps_sub_errors() {
    let e: OciError = oci_rootfs::overlay::fuse::OverlayError::NotFound.into();
    assert!(matches!(e, OciError::Overlay(oci_rootfs::overlay::fuse::OverlayError::NotFound)));
}
