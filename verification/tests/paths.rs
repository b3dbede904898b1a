//! Path-layout behavior: the overlay rewrite, denormal symlink detection,
//! and the canonical object and attribute paths.

use ostree_ext::paths::{
    map_path, object_path, symlink_is_denormal, v0_xattrs_object_path, v0_xattrs_path,
    v1_xattrs_link_object_path, v1_xattrs_object_path, validate_checksum, ObjectType,
};

#[test]
fn test_map_path() {
    assert_eq!(map_path("/"), "/");
    assert_eq!(map_path("./usr/etc/blah"), "./etc/blah");
}

#[test]
fn test_denormal_symlink() {
    let normal = ["/", "/usr", "../usr/bin/blah"];
    let denormal = ["../../usr/sbin//chkconfig", "foo//bar/baz"];
    for path in normal {
        assert!(!symlink_is_denormal(path));
    }
    for path in denormal {
        assert!(symlink_is_denormal(path));
    }
}

#[test]
fn test_v0_xattrs_path() {
    let checksum = "b8627e3ef0f255a322d2bd9610cfaaacc8f122b7f8d17c0e7e3caafa160f9fc7";
    let expected =
        "sysroot/ostree/repo/xattrs/b8627e3ef0f255a322d2bd9610cfaaacc8f122b7f8d17c0e7e3caafa160f9fc7";
    let output = v0_xattrs_path(checksum);
    assert_eq!(&output, expected);
}

#[test]
fn test_v0_xattrs_object_path() {
    let checksum = "b8627e3ef0f255a322d2bd9610cfaaacc8f122b7f8d17c0e7e3caafa160f9fc7";
    let expected =
        "sysroot/ostree/repo/objects/b8/627e3ef0f255a322d2bd9610cfaaacc8f122b7f8d17c0e7e3caafa160f9fc7.file.xattrs";
    let output = v0_xattrs_object_path(checksum);
    assert_eq!(&output, expected);
}

#[test]
fn test_v1_xattrs_object_path() {
    let checksum = "b8627e3ef0f255a322d2bd9610cfaaacc8f122b7f8d17c0e7e3caafa160f9fc7";
    let expected =
        "sysroot/ostree/repo/objects/b8/627e3ef0f255a322d2bd9610cfaaacc8f122b7f8d17c0e7e3caafa160f9fc7.file-xattrs";
    let output = v1_xattrs_object_path(checksum);
    assert_eq!(&output, expected);
}

#[test]
fn test_v1_xattrs_link_object_path() {
    let checksum = "b8627e3ef0f255a322d2bd9610cfaaacc8f122b7f8d17c0e7e3caafa160f9fc7";
    let expected =
        "sysroot/ostree/repo/objects/b8/627e3ef0f255a322d2bd9610cfaaacc8f122b7f8d17c0e7e3caafa160f9fc7.file-xattrs-link";
    let output = v1_xattrs_link_object_path(checksum);
    assert_eq!(&output, expected);
}

#[test]
fn test_map_path_exact_overlay_root() {
    assert_eq!(map_path("./usr/etc"), "./etc/");
    assert_eq!(map_path("./usr/etcetera"), "./usr/etcetera");
    assert_eq!(map_path("./usr/lib"), "./usr/lib");
}

#[test]
fn test_object_path_per_type() {
    let checksum = "b8627e3ef0f255a322d2bd9610cfaaacc8f122b7f8d17c0e7e3caafa160f9fc7";
    let stem = "sysroot/ostree/repo/objects/b8/627e3ef0f255a322d2bd9610cfaaacc8f122b7f8d17c0e7e3caafa160f9fc7";
    assert_eq!(object_path(ObjectType::Commit, checksum), format!("{}.commit", stem));
    assert_eq!(object_path(ObjectType::CommitMeta, checksum), format!("{}.commitmeta", stem));
    assert_eq!(object_path(ObjectType::DirTree, checksum), format!("{}.dirtree", stem));
    assert_eq!(object_path(ObjectType::DirMeta, checksum), format!("{}.dirmeta", stem));
    assert_eq!(object_path(ObjectType::File, checksum), format!("{}.file", stem));
}

#[test]
fn test_object_path_is_deterministic() {
    let checksum = "b8627e3ef0f255a322d2bd9610cfaaacc8f122b7f8d17c0e7e3caafa160f9fc7";
    let a = object_path(ObjectType::DirTree, checksum);
    let b = object_path(ObjectType::DirTree, checksum);
    assert_eq!(a, b);
}

#[test]
fn test_validate_checksum() {
    assert!(validate_checksum(
        "b8627e3ef0f255a322d2bd9610cfaaacc8f122b7f8d17c0e7e3caafa160f9fc7"
    ));
    // wrong length
    assert!(!validate_checksum("b8627e"));
    // uppercase digit
    assert!(!validate_checksum(
        "B8627e3ef0f255a322d2bd9610cfaaacc8f122b7f8d17c0e7e3caafa160f9fc7"
    ));
    // non-hex character
    assert!(!validate_checksum(
        "z8627e3ef0f255a322d2bd9610cfaaacc8f122b7f8d17c0e7e3caafa160f9fc7"
    ));
    assert!(!validate_checksum(""));
}
