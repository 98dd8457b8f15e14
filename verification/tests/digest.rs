use oci_rootfs::image::unpack::{
    check_layer_hash, entry_action, verify_digest, EntryAction, EntryKind, LinkGuard, UnpackError,
};

const HELLO_SHA256: &str = "2cf24dba5fb0a30e26e83b2ac5b9e29e1b161e5c1fa7425e73043362938b9824";

#[test]
fn digest_accepted_with_prefix() {
    let expected = format!("sha256:{}", HELLO_SHA256);
    assert!(verify_digest(b"hello", &expected).is_ok());
}

#[test]
fn digest_accepted_without_prefix() {
    assert!(verify_digest(b"hello", HELLO_SHA256).is_ok());
}

#[test]
fn digest_accepted_with_repeated_prefix() {
    let expected = format!("sha256:sha256:{}", HELLO_SHA256);
    assert!(verify_digest(b"hello", &expected).is_ok());
}

#[test]
fn digest_of_empty_data() {
    let expected = "sha256:e3b0c44298fc1c149afbf4c8996fb92427ae41e4649b934ca495991b7852b855";
    assert!(verify_digest(b"", expected).is_ok());
}

#[test]
fn digest_mismatch_reports_both() {
    match verify_digest(b"hello!", &format!("sha256:{}", HELLO_SHA256)) {
        Err(UnpackError::DigestMismatch { expected, got }) => {
            assert_eq!(expected, HELLO_SHA256);
            assert_eq!(got, "ce06092fb948d9ffac7d1a376e404b26b7575bcc11ee05a4615fef4fec3a308b");
        }
        other => panic!("unexpected: {:?}", other),
    }
}

#[test]
fn digest_is_compared_in_lowercase() {
    let upper = HELLO_SHA256.to_uppercase();
    assert!(matches!(
        verify_digest(b"hello", &upper),
        Err(UnpackError::DigestMismatch { .. })
    ));
}

#[test]
fn entries_outside_are_skipped() {
    assert_eq!(entry_action("/etc/passwd", EntryKind::Other), EntryAction::Skip);
    assert_eq!(entry_action("../escape", EntryKind::Other), EntryAction::Skip);
    assert_eq!(entry_action("a/../../b", EntryKind::Other), EntryAction::Skip);
    assert_eq!(entry_action("a/b/..", EntryKind::HardLink), EntryAction::Skip);
    assert_eq!(entry_action("..", EntryKind::Other), EntryAction::Skip);
}

#[test]
fn entries_inside_are_unpacked() {
    assert_eq!(entry_action("usr/bin/env", EntryKind::Other), EntryAction::Unpack);
    assert_eq!(entry_action("./etc/os-release", EntryKind::Other), EntryAction::Unpack);
    assert_eq!(entry_action("a/..b/c", EntryKind::Other), EntryAction::Unpack);
    assert_eq!(entry_action("...", EntryKind::Other), EntryAction::Unpack);
    assert_eq!(entry_action("", EntryKind::Other), EntryAction::Unpack);
}

#[test]
fn hard_links_inside_are_marked() {
    assert_eq!(entry_action("usr/bin/perl5", EntryKind::HardLink), EntryAction::HardLink);
}

#[test]
fn layer_hash_written_in_lowercase_hex() {
    assert!(check_layer_hash(&[0x0f, 0xa0, 0xff], "0fa0ff").is_ok());
    assert!(check_layer_hash(&[0x0f, 0xa0, 0xff], "sha256:0fa0ff").is_ok());
    match check_layer_hash(&[0x0f, 0xa0, 0xff], "sha256:0fa0fe") {
        Err(UnpackError::DigestMismatch { expected, got }) => {
            assert_eq!(expected, "0fa0fe");
            assert_eq!(got, "0fa0ff");
        }
        other => panic!("unexpected: {:?}", other),
    }
    assert!(check_layer_hash(&[], "").is_ok());
}

#[test]
fn links_of_an_image_are_kept() {
    let mut guard = LinkGuard::new();
    assert_eq!(guard.decide("usr/bin/awk", EntryKind::Symlink), EntryAction::Unpack);
    assert_eq!(guard.decide("usr/lib/libz.so", EntryKind::Symlink), EntryAction::Unpack);
    assert_eq!(guard.decide("lib64", EntryKind::Symlink), EntryAction::Unpack);
    assert_eq!(guard.decide("usr/bin/python", EntryKind::Symlink), EntryAction::Unpack);
    assert_eq!(guard.decide("usr/bin/perl5", EntryKind::HardLink), EntryAction::HardLink);
    assert_eq!(guard.decide("usr/bin/env", EntryKind::Other), EntryAction::Unpack);
    assert_eq!(guard.decide("usr/lib64/ld-linux-x86-64.so.2", EntryKind::Other), EntryAction::Unpack);
}

#[test]
fn links_are_judged_by_their_path() {
    assert_eq!(entry_action("etc/alternatives/awk", EntryKind::Symlink), EntryAction::Unpack);
    assert_eq!(entry_action("/abs", EntryKind::Symlink), EntryAction::Skip);
    assert_eq!(entry_action("a/../../x", EntryKind::HardLink), EntryAction::Skip);
    let mut guard = LinkGuard::new();
    assert_eq!(guard.decide("../lib", EntryKind::Symlink), EntryAction::Skip);
    // A link that was left out guards nothing.
    assert_eq!(guard.decide("lib/x", EntryKind::Other), EntryAction::Unpack);
}

#[test]
fn nothing_is_written_below_a_link() {
    let mut guard = LinkGuard::new();
    assert_eq!(guard.decide("./etc/", EntryKind::Other), EntryAction::Unpack);
    assert_eq!(guard.decide("etc/evil", EntryKind::Symlink), EntryAction::Unpack);
    assert_eq!(guard.decide("etc/evil/passwd", EntryKind::Other), EntryAction::Skip);
    assert_eq!(guard.decide("./etc//evil/./passwd", EntryKind::Other), EntryAction::Skip);
    assert_eq!(guard.decide("etc/evil/sub", EntryKind::Symlink), EntryAction::Skip);
    assert_eq!(guard.decide("etc/evil2/passwd", EntryKind::Other), EntryAction::Unpack);
    assert_eq!(guard.decide("etc/evil", EntryKind::Other), EntryAction::Unpack);
    assert_eq!(guard.decide("etc/evil/again", EntryKind::Other), EntryAction::Skip);
    assert_eq!(guard.decide("etc", EntryKind::Other), EntryAction::Unpack);
    // Hard links guard too: one can name an earlier link.
    assert_eq!(guard.decide("h", EntryKind::HardLink), EntryAction::HardLink);
    assert_eq!(guard.decide("h/x", EntryKind::Other), EntryAction::Skip);
    assert_eq!(guard.decide("/h/x", EntryKind::Other), EntryAction::Skip);
}

#[test]
fn a_link_at_the_root_guards_everything_below_it() {
    let mut guard = LinkGuard::new();
    assert_eq!(guard.decide("./a/", EntryKind::Symlink), EntryAction::Unpack);
    assert_eq!(guard.decide("a", EntryKind::Symlink), EntryAction::Unpack);
    assert_eq!(guard.decide("a/b/c/d", EntryKind::Other), EntryAction::Skip);
    assert_eq!(guard.decide("ab/c", EntryKind::Other), EntryAction::Unpack);
    assert_eq!(guard.decide(".", EntryKind::Other), EntryAction::Unpack);
}
