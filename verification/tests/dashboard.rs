use oci_rootfs::dashboard::{
    authorize, bind_requires_auth, blob_listing, is_listed_blob, is_safe_name, is_valid_digest, may_start,
    requested_digest, short_layer_id, vm_listing, BlobMetaFields, VmRecordFields,
};

const D: &str = "2cf24dba5fb0a30e26e83b2ac5b9e29e1b161e5c1fa7425e73043362938b9824";

#[test]
fn digests() {
    assert!(is_valid_digest(D));
    assert!(is_valid_digest(&D.to_uppercase()));
    assert!(!is_valid_digest(&D[..63]));
    assert!(!is_valid_digest(&format!("{}0", D)));
    assert!(!is_valid_digest(&format!("{}g", &D[..63])));
    assert!(!is_valid_digest(""));
}

#[test]
fn names() {
    assert!(is_safe_name("sandbox-01"));
    assert!(is_safe_name("a.b_c"));
    assert!(!is_safe_name(""));
    assert!(!is_safe_name(".hidden"));
    assert!(!is_safe_name("a..b"));
    assert!(!is_safe_name("a/b"));
    assert!(!is_safe_name("é"));
    assert!(is_safe_name(&"a".repeat(128)));
    assert!(!is_safe_name(&"a".repeat(129)));
}

#[test]
fn requests_outside_api_pass() {
    assert!(authorize("/index.html", "tok", ""));
    assert!(authorize("/apix", "", ""));
}

#[test]
fn api_requests_need_the_token() {
    assert!(authorize("/api/vms", "", ""));
    assert!(authorize("/api/vms", "tok", "Bearer tok"));
    assert!(!authorize("/api/vms", "tok", "Bearer tok2"));
    assert!(!authorize("/api/vms", "tok", "Bearer tol"));
    assert!(!authorize("/api/vms", "tok", ""));
    assert!(!authorize("/api", "tok", "bearer tok"));
}

#[test]
fn binding_rules() {
    assert!(bind_requires_auth("0.0.0.0:3000"));
    assert!(bind_requires_auth("[::]"));
    assert!(!bind_requires_auth("[::]:3000"));
    assert!(!bind_requires_auth("127.0.0.1:3000"));
    assert!(!may_start("0.0.0.0:3000", ""));
    assert!(may_start("0.0.0.0:3000", "t"));
    assert!(may_start("127.0.0.1:3000", ""));
}

#[test]
fn listed_blob_names() {
    assert!(is_listed_blob(D));
    assert!(!is_listed_blob(&format!("{}-extracted", D)));
    assert!(!is_listed_blob(&format!("{}-meta.json", D)));
}

#[test]
fn deletion_digests() {
    assert_eq!(requested_digest(&format!("sha256:{}", D)), Some(D.to_string()));
    assert_eq!(requested_digest(D), Some(D.to_string()));
    assert_eq!(requested_digest(&format!("sha256:sha256:{}", D)), None);
    assert_eq!(requested_digest("sha256:xyz"), None);
}

#[test]
fn short_ids() {
    assert_eq!(short_layer_id(D), "2cf24dba5fb0");
    assert_eq!(short_layer_id("abc"), "abc");
    assert_eq!(short_layer_id(""), "");
}

#[test]
fn vm_listing_defaults() {
    let empty = VmRecordFields {
        image: None,
        layers: None,
        layers_downloaded: None,
        layers_cached: None,
        bytes_downloaded: None,
        bytes_total: None,
        pull_duration_ms: None,
        pulled_at: None,
    };
    let l = vm_listing("vm".into(), empty, false, 7);
    assert_eq!(l.name, "vm");
    assert_eq!(l.image, "unknown");
    assert!(l.layers.is_empty());
    assert_eq!((l.layers_downloaded, l.layers_cached, l.bytes_downloaded, l.bytes_total, l.pull_duration_ms), (0, 0, 0, 0, 0));
    assert_eq!(l.pulled_at, "");
    assert!(!l.socket_active);
    assert_eq!(l.upper_size, 7);
}

#[test]
fn vm_listing_fields() {
    let f = VmRecordFields {
        image: Some("debian:trixie-slim".into()),
        layers: Some(vec![D.to_string(), "short".to_string()]),
        layers_downloaded: Some((1u64 << 32) + 3),
        layers_cached: Some(2),
        bytes_downloaded: Some(10),
        bytes_total: Some(20),
        pull_duration_ms: Some(30),
        pulled_at: Some("2024-01-01T00:00:00Z".into()),
    };
    let l = vm_listing("vm".into(), f, true, 0);
    assert_eq!(l.image, "debian:trixie-slim");
    assert_eq!(l.layers, vec!["2cf24dba5fb0", "short"]);
    assert_eq!(l.layers_downloaded, 3);
    assert_eq!(l.layers_cached, 2);
    assert_eq!(l.bytes_downloaded, 10);
    assert_eq!(l.bytes_total, 20);
    assert_eq!(l.pull_duration_ms, 30);
    assert_eq!(l.pulled_at, "2024-01-01T00:00:00Z");
    assert!(l.socket_active);
}

#[test]
fn blob_listing_defaults_and_fields() {
    let b = blob_listing(D.into(), 5, 9, BlobMetaFields { duration_ms: None, pulled_at: None, expires_at: None, ttl_hours: None });
    assert_eq!((b.digest.as_str(), b.size, b.extracted_size, b.duration_ms, b.ttl_hours), (D, 5, 9, 0, 0));
    assert_eq!((b.pulled_at.as_str(), b.expires_at.as_str()), ("", ""));
    let b = blob_listing(
        D.into(),
        5,
        9,
        BlobMetaFields { duration_ms: Some(4), pulled_at: Some("p".into()), expires_at: Some("e".into()), ttl_hours: Some(24) },
    );
    assert_eq!((b.duration_ms, b.pulled_at.as_str(), b.expires_at.as_str(), b.ttl_hours), (4, "p", "e", 24));
}
