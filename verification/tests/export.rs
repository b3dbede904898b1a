//! Archive-writer behavior: entry order, scaffolding, deduplication, the
//! attribute codec in both formats, and the error taxonomy.

use ostree_ext::export::{
    export_commit, CommitSource, DirMetaObj, DirNode, DirTreeObj, EntryBody, ExportError,
    FileKind, FileMeta, FileNode, FileObj, TarEntry, REPO_CONFIG,
};
use ostree_ext::ExportOptions;

fn checksum(fill: char) -> String {
    std::iter::repeat(fill).take(64).collect()
}

fn dirmeta(uid: u32, gid: u32, mode: u32) -> DirMetaObj {
    DirMetaObj { raw: vec![0xd1, 0xd2], uid, gid, mode }
}

fn regular_file(data: &[u8], mode: u32, xattrs: &[u8]) -> FileObj {
    FileObj {
        meta: Some(FileMeta { uid: 1000, gid: 1000, mode, kind: FileKind::Regular }),
        content: Some(data.to_vec()),
        symlink_target: None,
        xattrs: Some(xattrs.to_vec()),
    }
}

fn symlink_file(target: &str) -> FileObj {
    FileObj {
        meta: Some(FileMeta { uid: 0, gid: 0, mode: 0o120777, kind: FileKind::Symlink }),
        content: None,
        symlink_target: Some(target.to_string()),
        xattrs: Some(Vec::new()),
    }
}

fn empty_tree(fill: char) -> DirTreeObj {
    DirTreeObj { checksum: checksum(fill), raw: vec![0xee], files: Vec::new(), dirs: Vec::new() }
}

fn simple_source(root: DirTreeObj) -> CommitSource {
    CommitSource {
        checksum: checksum('a'),
        raw: vec![0xc0, 0xc1, 0xc2],
        detached_meta: None,
        root_meta_checksum: checksum('b'),
        root_meta: dirmeta(0, 0, 0o40755),
        root: root,
    }
}

fn paths(entries: &[TarEntry]) -> Vec<&str> {
    entries.iter().map(|e| e.path.as_str()).collect()
}

fn count_path(entries: &[TarEntry], p: &str) -> usize {
    entries.iter().filter(|e| e.path == p).count()
}

fn find<'a>(entries: &'a [TarEntry], p: &str) -> &'a TarEntry {
    entries
        .iter()
        .find(|e| e.path == p)
        .unwrap_or_else(|| panic!("no entry at {}", p))
}

#[test]
fn root_directory_comes_first() {
    let es = export_commit(&simple_source(empty_tree('c')), None).unwrap();
    assert!(!es.is_empty());
    assert_eq!(es[0].path, "./");
    assert!(matches!(es[0].body, EntryBody::Dir));
    assert_eq!(es[0].mode, 0o40755);
}

#[test]
fn scaffolding_is_complete_v0() {
    let es = export_commit(&simple_source(empty_tree('c')), None).unwrap();
    let ps = paths(&es);
    for required in [
        "sysroot",
        "sysroot/ostree",
        "sysroot/ostree/repo",
        "sysroot/ostree/repo/objects",
        "sysroot/ostree/repo/objects/00",
        "sysroot/ostree/repo/objects/7f",
        "sysroot/ostree/repo/objects/ff",
        "sysroot/ostree/repo/tmp",
        "sysroot/ostree/repo/tmp/cache",
        "sysroot/ostree/repo/refs",
        "sysroot/ostree/repo/refs/heads",
        "sysroot/ostree/repo/refs/mirrors",
        "sysroot/ostree/repo/refs/remotes",
        "sysroot/ostree/repo/xattrs",
        "sysroot/config",
    ] {
        assert!(ps.contains(&required), "missing {}", required);
    }
    let config = find(&es, "sysroot/config");
    match &config.body {
        EntryBody::Regular(data) => assert_eq!(data.as_slice(), REPO_CONFIG.as_bytes()),
        _ => panic!("config entry is not a regular file"),
    }
}

#[test]
fn scaffolding_differences_v1() {
    let es = export_commit(
        &simple_source(empty_tree('c')),
        Some(ExportOptions { format_version: 1 }),
    )
    .unwrap();
    let ps = paths(&es);
    assert!(!ps.contains(&"sysroot/ostree/repo/xattrs"));
    assert!(!ps.contains(&"sysroot/config"));
    assert!(ps.contains(&"sysroot/ostree/repo/config"));
}

#[test]
fn commit_object_written_once_with_exact_bytes() {
    let src = simple_source(empty_tree('c'));
    let es = export_commit(&src, None).unwrap();
    let commit_path = format!(
        "sysroot/ostree/repo/objects/aa/{}.commit",
        &checksum('a')[2..]
    );
    assert_eq!(count_path(&es, &commit_path), 1);
    match &find(&es, &commit_path).body {
        EntryBody::Regular(data) => assert_eq!(data, &src.raw),
        _ => panic!("commit object is not a regular entry"),
    }
    // The root dirmeta object is there too.
    let dirmeta_path = format!(
        "sysroot/ostree/repo/objects/bb/{}.dirmeta",
        &checksum('b')[2..]
    );
    assert_eq!(count_path(&es, &dirmeta_path), 1);
}

#[test]
fn detached_metadata_written_when_present() {
    let mut src = simple_source(empty_tree('c'));
    src.detached_meta = Some(vec![0x5a, 0x5b]);
    let es = export_commit(&src, None).unwrap();
    let path = format!(
        "sysroot/ostree/repo/objects/aa/{}.commitmeta",
        &checksum('a')[2..]
    );
    assert_eq!(count_path(&es, &path), 1);
}

#[test]
fn file_content_deduplicated_across_references() {
    // The same file checksum referenced under two names: one content object,
    // two hardlinks.
    let fc = checksum('f');
    let root = DirTreeObj {
        checksum: checksum('c'),
        raw: vec![0xee],
        files: vec![
            FileNode {
                name: "one".to_string(),
                checksum: fc.clone(),
                file: regular_file(b"hello", 0o100644, b""),
            },
            FileNode {
                name: "two".to_string(),
                checksum: fc.clone(),
                file: regular_file(b"hello", 0o100644, b""),
            },
        ],
        dirs: Vec::new(),
    };
    let es = export_commit(&simple_source(root), None).unwrap();
    let obj = format!("sysroot/ostree/repo/objects/ff/{}.file", &fc[2..]);
    assert_eq!(count_path(&es, &obj), 1);
    for link in ["./one", "./two"] {
        let e = find(&es, link);
        match &e.body {
            EntryBody::Hardlink(target) => assert_eq!(target, &obj),
            _ => panic!("expected hardlink at {}", link),
        }
        assert_eq!(e.uid, 1000);
        assert_eq!(e.mode, 0o100644);
    }
}

#[test]
fn dirtree_and_dirmeta_deduplicated() {
    // Two subdirectories sharing one tree checksum and one meta checksum.
    let sub = |name: &str| DirNode {
        name: name.to_string(),
        meta_checksum: checksum('d'),
        meta: dirmeta(0, 0, 0o40755),
        tree: empty_tree('e'),
    };
    let root = DirTreeObj {
        checksum: checksum('c'),
        raw: vec![0xee],
        files: Vec::new(),
        dirs: vec![sub("left"), sub("right")],
    };
    let es = export_commit(&simple_source(root), None).unwrap();
    let tree_obj = format!("sysroot/ostree/repo/objects/ee/{}.dirtree", &checksum('e')[2..]);
    let meta_obj = format!("sysroot/ostree/repo/objects/dd/{}.dirmeta", &checksum('d')[2..]);
    assert_eq!(count_path(&es, &tree_obj), 1);
    assert_eq!(count_path(&es, &meta_obj), 1);
    assert_eq!(count_path(&es, "./left"), 1);
    assert_eq!(count_path(&es, "./right"), 1);
}

#[test]
fn overlay_prefix_rewritten_to_effective_location() {
    let blah = FileNode {
        name: "blah".to_string(),
        checksum: checksum('f'),
        file: regular_file(b"cfg", 0o100644, b""),
    };
    let etc = DirNode {
        name: "etc".to_string(),
        meta_checksum: checksum('d'),
        meta: dirmeta(0, 0, 0o40755),
        tree: DirTreeObj {
            checksum: checksum('e'),
            raw: vec![0xee],
            files: vec![blah],
            dirs: Vec::new(),
        },
    };
    let usr = DirNode {
        name: "usr".to_string(),
        meta_checksum: checksum('d'),
        meta: dirmeta(0, 0, 0o40755),
        tree: DirTreeObj {
            checksum: checksum('1'),
            raw: vec![0xe1],
            files: Vec::new(),
            dirs: vec![etc],
        },
    };
    let root = DirTreeObj {
        checksum: checksum('c'),
        raw: vec![0xee],
        files: Vec::new(),
        dirs: vec![usr],
    };
    let es = export_commit(&simple_source(root), None).unwrap();
    let ps = paths(&es);
    assert!(ps.contains(&"./usr"));
    assert!(ps.contains(&"./etc/"));
    assert!(ps.contains(&"./etc/blah"));
    assert!(!ps.contains(&"./usr/etc"));
    assert!(!ps.contains(&"./usr/etc/blah"));
}

#[test]
fn root_level_sysroot_child_is_skipped() {
    let root = DirTreeObj {
        checksum: checksum('c'),
        raw: vec![0xee],
        files: Vec::new(),
        dirs: vec![DirNode {
            name: "sysroot".to_string(),
            meta_checksum: checksum('d'),
            meta: dirmeta(0, 0, 0o40755),
            tree: empty_tree('e'),
        }],
    };
    let es = export_commit(&simple_source(root), None).unwrap();
    // No logical directory entry; the scaffolding owns the name. The
    // metadata object is still written.
    assert_eq!(count_path(&es, "./sysroot"), 0);
    let meta_obj = format!("sysroot/ostree/repo/objects/dd/{}.dirmeta", &checksum('d')[2..]);
    assert_eq!(count_path(&es, &meta_obj), 1);
    // And the skipped subtree's dirtree object was not walked.
    let tree_obj = format!("sysroot/ostree/repo/objects/ee/{}.dirtree", &checksum('e')[2..]);
    assert_eq!(count_path(&es, &tree_obj), 0);
}

#[test]
fn denormal_symlink_written_literally() {
    let root = DirTreeObj {
        checksum: checksum('c'),
        raw: vec![0xee],
        files: vec![
            FileNode {
                name: "svc".to_string(),
                checksum: checksum('f'),
                file: symlink_file("../../usr/sbin//chkconfig"),
            },
            FileNode {
                name: "plain".to_string(),
                checksum: checksum('2'),
                file: symlink_file("../usr/bin/blah"),
            },
        ],
        dirs: Vec::new(),
    };
    let es = export_commit(&simple_source(root), None).unwrap();
    let obj = format!("sysroot/ostree/repo/objects/ff/{}.file", &checksum('f')[2..]);
    match &find(&es, &obj).body {
        EntryBody::Symlink { target, literal } => {
            assert_eq!(target, "../../usr/sbin//chkconfig");
            assert!(*literal);
        },
        _ => panic!("expected symlink object"),
    }
    let obj2 = format!("sysroot/ostree/repo/objects/22/{}.file", &checksum('2')[2..]);
    match &find(&es, &obj2).body {
        EntryBody::Symlink { target, literal } => {
            assert_eq!(target, "../usr/bin/blah");
            assert!(!*literal);
        },
        _ => panic!("expected symlink object"),
    }
}

fn xattr_digest(blob: &[u8]) -> String {
    hex::encode(openssl::hash::hash(openssl::hash::MessageDigest::sha256(), blob).unwrap())
}

#[test]
fn xattr_codec_format0() {
    let fc = checksum('f');
    let root = DirTreeObj {
        checksum: checksum('c'),
        raw: vec![0xee],
        files: vec![FileNode {
            name: "data".to_string(),
            checksum: fc.clone(),
            file: regular_file(b"hello", 0o100644, &[1, 2, 3]),
        }],
        dirs: Vec::new(),
    };
    let es = export_commit(&simple_source(root), None).unwrap();
    let digest = xattr_digest(&[1, 2, 3]);
    let blob_path = format!("sysroot/ostree/repo/xattrs/{}", digest);
    match &find(&es, &blob_path).body {
        EntryBody::Regular(data) => assert_eq!(data.as_slice(), &[1, 2, 3]),
        _ => panic!("expected xattr blob"),
    }
    let link_path = format!("sysroot/ostree/repo/objects/ff/{}.file.xattrs", &fc[2..]);
    match &find(&es, &link_path).body {
        EntryBody::Hardlink(target) => assert_eq!(target, &blob_path),
        _ => panic!("expected xattr hardlink"),
    }
    // The attribute objects stand before the content object.
    let obj = format!("sysroot/ostree/repo/objects/ff/{}.file", &fc[2..]);
    let blob_idx = es.iter().position(|e| e.path == blob_path).unwrap();
    let obj_idx = es.iter().position(|e| e.path == obj).unwrap();
    assert!(blob_idx < obj_idx);
}

#[test]
fn xattr_codec_format0_empty_blob_writes_nothing() {
    let fc = checksum('f');
    let root = DirTreeObj {
        checksum: checksum('c'),
        raw: vec![0xee],
        files: vec![FileNode {
            name: "data".to_string(),
            checksum: fc.clone(),
            file: regular_file(b"hello", 0o100644, b""),
        }],
        dirs: Vec::new(),
    };
    let es = export_commit(&simple_source(root), None).unwrap();
    let digest = xattr_digest(b"");
    assert_eq!(count_path(&es, &format!("sysroot/ostree/repo/xattrs/{}", digest)), 0);
    assert_eq!(
        count_path(&es, &format!("sysroot/ostree/repo/objects/ff/{}.file.xattrs", &fc[2..])),
        0
    );
}

#[test]
fn xattr_codec_format1_writes_even_empty() {
    let fc = checksum('f');
    let root = DirTreeObj {
        checksum: checksum('c'),
        raw: vec![0xee],
        files: vec![FileNode {
            name: "data".to_string(),
            checksum: fc.clone(),
            file: regular_file(b"hello", 0o100644, b""),
        }],
        dirs: Vec::new(),
    };
    let es = export_commit(&simple_source(root), Some(ExportOptions { format_version: 1 }))
        .unwrap();
    let digest = xattr_digest(b"");
    let blob_path = format!(
        "sysroot/ostree/repo/objects/{}/{}.file-xattrs",
        &digest[..2],
        &digest[2..]
    );
    assert_eq!(count_path(&es, &blob_path), 1);
    let link_path = format!("sysroot/ostree/repo/objects/ff/{}.file-xattrs-link", &fc[2..]);
    match &find(&es, &link_path).body {
        EntryBody::Hardlink(target) => assert_eq!(target, &blob_path),
        _ => panic!("expected xattr link object"),
    }
}

#[test]
fn xattr_blob_written_once_for_one_file_checksum() {
    // The same file twice: the content dedup set short-circuits the second
    // visit, so the blob and its link go out once.
    let fc = checksum('f');
    let node = || FileNode {
        name: "data".to_string(),
        checksum: fc.clone(),
        file: regular_file(b"hello", 0o100644, &[1, 2, 3]),
    };
    let root = DirTreeObj {
        checksum: checksum('c'),
        raw: vec![0xee],
        files: vec![node(), node()],
        dirs: Vec::new(),
    };
    let es = export_commit(&simple_source(root), None).unwrap();
    let digest = xattr_digest(&[1, 2, 3]);
    assert_eq!(count_path(&es, &format!("sysroot/ostree/repo/xattrs/{}", digest)), 1);
}

#[test]
fn xattr_dedup_keys_on_owning_file_checksum() {
    // Two distinct files sharing one attribute blob: the dedup set records
    // the owning files' checksums while the guard tests the blob's digest,
    // so the shared blob goes out once per file. That literal keying is part
    // of the format-0 on-disk contract.
    let root = DirTreeObj {
        checksum: checksum('c'),
        raw: vec![0xee],
        files: vec![
            FileNode {
                name: "one".to_string(),
                checksum: checksum('f'),
                file: regular_file(b"a", 0o100644, &[1, 2, 3]),
            },
            FileNode {
                name: "two".to_string(),
                checksum: checksum('e'),
                file: regular_file(b"b", 0o100644, &[1, 2, 3]),
            },
        ],
        dirs: Vec::new(),
    };
    let es = export_commit(&simple_source(root), None).unwrap();
    let digest = xattr_digest(&[1, 2, 3]);
    assert_eq!(count_path(&es, &format!("sysroot/ostree/repo/xattrs/{}", digest)), 2);
}

#[test]
fn objects_precede_the_entries_that_use_them() {
    // A file's content object stands before the hardlink pointing at it; a
    // subdirectory's metadata object stands before its directory entry.
    let fc = checksum('f');
    let root = DirTreeObj {
        checksum: checksum('c'),
        raw: vec![0xee],
        files: vec![FileNode {
            name: "data".to_string(),
            checksum: fc.clone(),
            file: regular_file(b"hello", 0o100644, b""),
        }],
        dirs: vec![DirNode {
            name: "sub".to_string(),
            meta_checksum: checksum('d'),
            meta: dirmeta(0, 0, 0o40755),
            tree: empty_tree('e'),
        }],
    };
    let es = export_commit(&simple_source(root), None).unwrap();
    let obj = format!("sysroot/ostree/repo/objects/ff/{}.file", &fc[2..]);
    let obj_idx = es.iter().position(|e| e.path == obj).unwrap();
    let link_idx = es.iter().position(|e| e.path == "./data").unwrap();
    assert!(obj_idx < link_idx);
    let meta_obj = format!("sysroot/ostree/repo/objects/dd/{}.dirmeta", &checksum('d')[2..]);
    let meta_idx = es.iter().position(|e| e.path == meta_obj).unwrap();
    let dir_idx = es.iter().position(|e| e.path == "./sub").unwrap();
    assert!(meta_idx < dir_idx);
}

#[test]
fn mode_word_filtered_by_format() {
    let fc = checksum('f');
    let mk_root = || DirTreeObj {
        checksum: checksum('c'),
        raw: vec![0xee],
        files: vec![FileNode {
            name: "data".to_string(),
            checksum: fc.clone(),
            file: regular_file(b"x", 0o100644, b""),
        }],
        dirs: Vec::new(),
    };
    let obj = format!("sysroot/ostree/repo/objects/ff/{}.file", &fc[2..]);
    let v0 = export_commit(&simple_source(mk_root()), None).unwrap();
    assert_eq!(find(&v0, &obj).mode, 0o100644);
    let v1 = export_commit(
        &simple_source(mk_root()),
        Some(ExportOptions { format_version: 1 }),
    )
    .unwrap();
    assert_eq!(find(&v1, &obj).mode, 0o644);
}

#[test]
fn unsupported_format_version_is_refused() {
    let r = export_commit(
        &simple_source(empty_tree('c')),
        Some(ExportOptions { format_version: 7 }),
    );
    assert_eq!(r.err().unwrap(), ExportError::UnsupportedFormat(7));
}

#[test]
fn malformed_checksum_is_refused() {
    let mut src = simple_source(empty_tree('c'));
    src.checksum = "nonsense".to_string();
    assert_eq!(export_commit(&src, None).err().unwrap(), ExportError::InvalidChecksum);
}

#[test]
fn missing_file_parts_are_fatal() {
    let mk = |file: FileObj| {
        simple_source(DirTreeObj {
            checksum: checksum('c'),
            raw: vec![0xee],
            files: vec![FileNode { name: "x".to_string(), checksum: checksum('f'), file }],
            dirs: Vec::new(),
        })
    };
    let no_meta = FileObj {
        meta: None,
        content: Some(b"x".to_vec()),
        symlink_target: None,
        xattrs: Some(Vec::new()),
    };
    assert_eq!(export_commit(&mk(no_meta), None).err().unwrap(), ExportError::MissingMetadata);
    let no_xattrs = FileObj {
        meta: Some(FileMeta { uid: 0, gid: 0, mode: 0o100644, kind: FileKind::Regular }),
        content: Some(b"x".to_vec()),
        symlink_target: None,
        xattrs: None,
    };
    assert_eq!(export_commit(&mk(no_xattrs), None).err().unwrap(), ExportError::MissingXattrs);
    let no_target = FileObj {
        meta: Some(FileMeta { uid: 0, gid: 0, mode: 0o120777, kind: FileKind::Symlink }),
        content: None,
        symlink_target: None,
        xattrs: Some(Vec::new()),
    };
    assert_eq!(
        export_commit(&mk(no_target), None).err().unwrap(),
        ExportError::MissingSymlinkTarget
    );
    let wrong_type = FileObj {
        meta: Some(FileMeta { uid: 0, gid: 0, mode: 0o100644, kind: FileKind::Other }),
        content: Some(b"x".to_vec()),
        symlink_target: None,
        xattrs: Some(Vec::new()),
    };
    assert_eq!(export_commit(&mk(wrong_type), None).err().unwrap(), ExportError::WrongFileType);
}
