//! Import-pipeline decisions: layer selection, manifest digests, the policy
//! gate, the staged-archive scan, and progress tracking.

use ostree_ext::import::{
    blob_symlink_target, check_policy, find_layer_blobid, find_layer_tar_sync, manifest_digest,
    Import, ImportError, Manifest, ManifestLayer, ScanEntry, ScanEntryKind, SignatureSource,
    DOCKER_TYPE_LAYER, OCI_TYPE_LAYER,
};
use ostree_ext::progress::{ImportProgress, ProgressTracker};

fn layer(media_type: &str, digest: &str) -> ManifestLayer {
    ManifestLayer { media_type: media_type.to_string(), digest: digest.to_string() }
}

#[test]
fn layer_selection_requires_exactly_one_match() {
    let none = Manifest { layers: vec![layer("text/plain", "sha256:aa")] };
    assert_eq!(find_layer_blobid(&none).err().unwrap(), ImportError::NoEligibleLayer);

    let empty = Manifest { layers: Vec::new() };
    assert_eq!(find_layer_blobid(&empty).err().unwrap(), ImportError::NoEligibleLayer);

    let two = Manifest {
        layers: vec![layer(OCI_TYPE_LAYER, "sha256:aa"), layer(DOCKER_TYPE_LAYER, "sha256:bb")],
    };
    assert_eq!(find_layer_blobid(&two).err().unwrap(), ImportError::AmbiguousLayers);
}

#[test]
fn layer_selection_returns_bare_digest() {
    let one = Manifest {
        layers: vec![
            layer("application/vnd.oci.image.config.v1+json", "sha256:cfg"),
            layer(OCI_TYPE_LAYER, "sha256:deadbeef"),
        ],
    };
    assert_eq!(find_layer_blobid(&one).unwrap(), "deadbeef");

    let docker = Manifest { layers: vec![layer(DOCKER_TYPE_LAYER, "sha256:0123")] };
    assert_eq!(find_layer_blobid(&docker).unwrap(), "0123");
}

#[test]
fn layer_digest_needs_scheme_prefix() {
    let bad = Manifest { layers: vec![layer(OCI_TYPE_LAYER, "md5:deadbeef")] };
    assert_eq!(find_layer_blobid(&bad).err().unwrap(), ImportError::MissingDigestPrefix);
    let short = Manifest { layers: vec![layer(OCI_TYPE_LAYER, "sha")] };
    assert_eq!(find_layer_blobid(&short).err().unwrap(), ImportError::MissingDigestPrefix);
}

#[test]
fn manifest_digest_is_prefixed_sha256() {
    // The SHA-256 of the empty input, independently known.
    assert_eq!(
        manifest_digest(b"").unwrap(),
        "sha256:e3b0c44298fc1c149afbf4c8996fb92427ae41e4649b934ca495991b7852b855"
    );
    // Cross-check a non-trivial input against the crates the library calls.
    let raw = b"{\"layers\":[]}";
    let expected = format!(
        "sha256:{}",
        hex::encode(openssl::hash::hash(openssl::hash::MessageDigest::sha256(), raw).unwrap())
    );
    assert_eq!(manifest_digest(raw).unwrap(), expected);
}

#[test]
fn policy_gate_refuses_insecure_ambient_policy() {
    assert_eq!(
        check_policy(&SignatureSource::ContainerPolicy, true).err().unwrap(),
        ImportError::InsecurePolicy
    );
    assert!(check_policy(&SignatureSource::ContainerPolicy, false).is_ok());
    assert!(check_policy(&SignatureSource::ContainerPolicyAllowInsecure, true).is_ok());
    assert!(check_policy(&SignatureSource::OstreeRemote("prod".to_string()), true).is_ok());
}

#[test]
fn blob_symlink_target_shape() {
    assert_eq!(blob_symlink_target(&"deadbeef".to_string()), "../deadbeef.tar");
}

fn entry(path: &str, kind: ScanEntryKind, link: Option<&str>, data: &[u8]) -> ScanEntry {
    ScanEntry {
        path: path.to_string(),
        kind,
        link_target: link.map(|s| s.to_string()),
        data: data.to_vec(),
    }
}

#[test]
fn scan_forwards_the_only_tar_entry() {
    let entries = vec![
        entry("index.json", ScanEntryKind::Regular, None, b"{}"),
        entry("aa11/layer.tar", ScanEntryKind::Regular, None, b"layer bytes in order"),
        entry("repositories", ScanEntryKind::Regular, None, b"{}"),
    ];
    let got = find_layer_tar_sync(&entries, &"../deadbeef.tar".to_string()).unwrap();
    assert_eq!(got, b"layer bytes in order");
}

#[test]
fn scan_without_match_reports_not_found() {
    let entries = vec![
        entry("index.json", ScanEntryKind::Regular, None, b"{}"),
        entry("aa11", ScanEntryKind::Other, None, b""),
    ];
    assert_eq!(
        find_layer_tar_sync(&entries, &"../deadbeef.tar".to_string()).err().unwrap(),
        ImportError::LayerNotFound
    );
    let empty: Vec<ScanEntry> = Vec::new();
    assert_eq!(
        find_layer_tar_sync(&empty, &"../deadbeef.tar".to_string()).err().unwrap(),
        ImportError::LayerNotFound
    );
}

#[test]
fn scan_validates_compatibility_alias() {
    let expected = "../deadbeef.tar".to_string();
    let ok_alias = vec![
        entry("aa11/layer.tar", ScanEntryKind::Symlink, Some("../deadbeef.tar"), b""),
        entry("bb22/layer.tar", ScanEntryKind::Regular, None, b"bytes"),
    ];
    assert_eq!(find_layer_tar_sync(&ok_alias, &expected).unwrap(), b"bytes");

    let bad_alias = vec![entry(
        "aa11/layer.tar",
        ScanEntryKind::Symlink,
        Some("../otherblob.tar"),
        b"",
    )];
    assert_eq!(
        find_layer_tar_sync(&bad_alias, &expected).err().unwrap(),
        ImportError::UnexpectedLayerLink
    );

    let no_target = vec![entry("aa11/layer.tar", ScanEntryKind::Symlink, None, b"")];
    assert_eq!(
        find_layer_tar_sync(&no_target, &expected).err().unwrap(),
        ImportError::InvalidLink
    );
}

#[test]
fn scan_skips_entries_without_tar_extension() {
    let entries = vec![
        // A symlink pointing elsewhere, but not named `layer.tar`: skipped.
        entry("aa11/json", ScanEntryKind::Symlink, Some("../other"), b""),
        // A hidden `.tar` has no extension in the path's own terms.
        entry("aa11/.tar", ScanEntryKind::Regular, None, b"not it"),
        entry("aa11/real.tar", ScanEntryKind::Regular, None, b"it"),
    ];
    assert_eq!(
        find_layer_tar_sync(&entries, &"../deadbeef.tar".to_string()).unwrap(),
        b"it"
    );
}

#[test]
fn scan_takes_first_matching_entry_only() {
    let entries = vec![
        entry("a.tar", ScanEntryKind::Regular, None, b"first"),
        entry("b.tar", ScanEntryKind::Regular, None, b"second"),
    ];
    assert_eq!(
        find_layer_tar_sync(&entries, &"../deadbeef.tar".to_string()).unwrap(),
        b"first"
    );
}

#[test]
fn progress_totals_accumulate_and_never_decrease() {
    let mut t = ProgressTracker::new();
    assert_eq!(t.snapshot().processed_bytes, 0);
    let mut last: u64 = 0;
    let mut total: u64 = 0;
    for n in [0u64, 10, 3, 0, 4096] {
        t.record_read(n);
        total += n;
        let now = t.snapshot().processed_bytes;
        assert!(now >= last);
        last = now;
    }
    assert_eq!(t.snapshot().processed_bytes, total);
}

#[test]
fn progress_publication_self_disables() {
    let mut t = ProgressTracker::new();
    assert!(t.should_publish());
    t.record_read(5);
    assert!(t.should_publish());
    t.publication_failed();
    assert!(!t.should_publish());
    // Later reads still count; publication stays off.
    t.record_read(7);
    assert!(!t.should_publish());
    assert_eq!(t.snapshot().processed_bytes, 12);
}

#[test]
fn progress_default_is_zero() {
    let p = ImportProgress::default();
    assert_eq!(p.processed_bytes, 0);
}

#[test]
fn import_result_carries_commit_and_digest() {
    let r = Import {
        ostree_commit: "abc".to_string(),
        image_digest: "sha256:def".to_string(),
    };
    assert_eq!(r.ostree_commit, "abc");
    assert_eq!(r.image_digest, "sha256:def");
}
