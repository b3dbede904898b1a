//! Import-pipeline logic: select the commit-bearing layer of an image
//! manifest, compute a manifest digest, enforce the signature policy, and
//! scan a staged archive-of-archives for the one entry that carries the
//! layer.

use vstd::prelude::*;
use crate::digest::{hex_of, sha256_of};
use crate::paths::{str_equal, str_eq_prefix};

verus! {

/// The layer media type a docker-style image uses for the commit layer.
pub const DOCKER_TYPE_LAYER: &'static str = "application/vnd.docker.image.rootfs.diff.tar.gzip";

/// The layer media type an OCI image uses for the commit layer.
pub const OCI_TYPE_LAYER: &'static str = "application/vnd.oci.image.layer.v1.tar+gzip";

/// One layer reference of an image manifest.
pub struct ManifestLayer {
    pub media_type: String,
    pub digest: String,
}

/// An image manifest: its ordered layer list.
pub struct Manifest {
    pub layers: Vec<ManifestLayer>,
}

/// The result of an import operation.
#[derive(Debug)]
pub struct Import {
    /// The ostree commit that was imported.
    pub ostree_commit: String,
    /// The image digest retrieved.
    pub image_digest: String,
}

/// How an imported commit's signature is to be verified.
pub enum SignatureSource {
    /// Trust a named local signing identity.
    OstreeRemote(String),
    /// Trust the ambient container signature policy.
    ContainerPolicy,
    /// Explicitly allow an insecure ambient policy.
    ContainerPolicyAllowInsecure,
}

/// Why the import decision logic refuses to proceed.
#[derive(Clone, Copy, PartialEq, Eq, Structural, Debug)]
pub enum ImportError {
    /// The manifest holds no layer with a recognized media type.
    NoEligibleLayer,
    /// The manifest holds more than one eligible layer; there is no
    /// tie-break policy.
    AmbiguousLayers,
    /// The selected layer's digest does not carry the expected scheme
    /// prefix.
    MissingDigestPrefix,
    /// The ambient policy accepts anything; refusing to import unverified
    /// content.
    InsecurePolicy,
    /// The staged archive ended without the target layer.
    LayerNotFound,
    /// A compatibility alias in the archive points at the wrong target.
    UnexpectedLayerLink,
    /// A compatibility alias in the archive carries no target at all.
    InvalidLink,
    /// The manifest digest computation failed.
    DigestFailed,
}

/// A layer whose media type marks it as commit-bearing.
pub open spec fn spec_eligible(l: ManifestLayer) -> bool {
    l.media_type@ == DOCKER_TYPE_LAYER@ || l.media_type@ == OCI_TYPE_LAYER@
}

/// How many layers of `ls` are eligible.
pub open spec fn count_eligible(ls: Seq<ManifestLayer>) -> int
    decreases ls.len(),
{
    if ls.len() == 0 {
        0
    } else {
        count_eligible(ls.drop_last()) + if spec_eligible(ls.last()) {
            1int
        } else {
            0int
        }
    }
}

/// A count of matches is never negative.
proof fn lemma_count_eligible_nonneg(ls: Seq<ManifestLayer>)
    ensures
        count_eligible(ls) >= 0,
    decreases ls.len(),
{
    if ls.len() > 0 {
        lemma_count_eligible_nonneg(ls.drop_last());
    }
}

/// A registry digest in the one scheme the import understands.
pub open spec fn has_sha256_prefix(d: Seq<char>) -> bool {
    "sha256:"@.is_prefix_of(d)
}

/// One eligible layer makes the count at least one.
proof fn lemma_one_eligible(ls: Seq<ManifestLayer>, a: int)
    requires
        0 <= a < ls.len(),
        spec_eligible(ls[a]),
    ensures
        count_eligible(ls) >= 1,
    decreases ls.len(),
{
    if a == ls.len() - 1 {
        lemma_count_eligible_nonneg(ls.drop_last());
    } else {
        lemma_one_eligible(ls.drop_last(), a);
    }
}

/// Two eligible layers make the count at least two.
proof fn lemma_two_eligible(ls: Seq<ManifestLayer>, a: int, b: int)
    requires
        0 <= a < b < ls.len(),
        spec_eligible(ls[a]),
        spec_eligible(ls[b]),
    ensures
        count_eligible(ls) >= 2,
    decreases ls.len(),
{
    if b == ls.len() - 1 {
        lemma_one_eligible(ls.drop_last(), a);
    } else {
        lemma_two_eligible(ls.drop_last(), a, b);
    }
}

/// Select the single commit-bearing layer of a manifest and return its bare
/// digest, without the scheme prefix. Zero eligible layers and more than one
/// are both fatal; so is a digest without the `sha256:` prefix.
pub fn find_layer_blobid(manifest: &Manifest) -> (r: Result<String, ImportError>)
    ensures
        r matches Ok(d) ==> count_eligible(manifest.layers@) == 1 && (exists|i: int|
            0 <= i < manifest.layers@.len() && spec_eligible(#[trigger] manifest.layers@[i])
                && manifest.layers@[i].digest@ == "sha256:"@ + d@),
        r is Ok <==> (count_eligible(manifest.layers@) == 1 && (exists|i: int|
            0 <= i < manifest.layers@.len() && spec_eligible(#[trigger] manifest.layers@[i])
                && has_sha256_prefix(manifest.layers@[i].digest@))),
        (r matches Err(e) && e == ImportError::NoEligibleLayer) <==> count_eligible(
            manifest.layers@,
        ) == 0,
        (r matches Err(e) && e == ImportError::AmbiguousLayers) <==> count_eligible(
            manifest.layers@,
        ) >= 2,
        (r matches Err(e) && e == ImportError::MissingDigestPrefix) <==> (count_eligible(
            manifest.layers@,
        ) == 1 && (forall|i: int|
            0 <= i < manifest.layers@.len() && spec_eligible(#[trigger] manifest.layers@[i])
                ==> !has_sha256_prefix(manifest.layers@[i].digest@))),
{
    let n = manifest.layers.len();
    let mut i: usize = 0;
    let mut count: usize = 0;
    let mut first: usize = n;
    while i < n
        invariant
            0 <= i <= n,
            n == manifest.layers@.len(),
            count == count_eligible(manifest.layers@.take(i as int)),
            count <= i,
            count > 0 ==> first < i && spec_eligible(manifest.layers@[first as int]),
            count == 0 ==> first == n,
        decreases n - i,
    {
        let l = &manifest.layers[i];
        let eligible = str_equal(l.media_type.as_str(), DOCKER_TYPE_LAYER) || str_equal(
            l.media_type.as_str(),
            OCI_TYPE_LAYER,
        );
        proof {
            assert(manifest.layers@.take(i + 1 as int).drop_last() =~= manifest.layers@.take(
                i as int,
            ));
            assert(manifest.layers@.take(i + 1 as int).last() == manifest.layers@[i as int]);
        }
        if eligible {
            if count == 0 {
                first = i;
            }
            count = count + 1;
        }
        i = i + 1;
    }
    proof {
        assert(manifest.layers@.take(n as int) =~= manifest.layers@);
    }
    if count == 0 {
        return Err(ImportError::NoEligibleLayer);
    }
    if count > 1 {
        return Err(ImportError::AmbiguousLayers);
    }
    let layer = &manifest.layers[first];
    let digest = &layer.digest;
    let dlen = digest.as_str().unicode_len();
    proof {
        reveal_strlit("sha256:");
        assert("sha256:"@.take(7) =~= "sha256:"@);
        // With exactly one eligible layer, every eligible index is `first`.
        assert forall|k: int|
            0 <= k < manifest.layers@.len() && spec_eligible(
                #[trigger] manifest.layers@[k],
            ) implies k == first as int by {
            if k < first as int {
                lemma_two_eligible(manifest.layers@, k, first as int);
            } else if k > first as int {
                lemma_two_eligible(manifest.layers@, first as int, k);
            }
        }
    }
    if dlen < 7 || !str_eq_prefix(digest.as_str(), "sha256:", 7) {
        proof {
            if has_sha256_prefix(digest@) {
                assert(digest@.subrange(0, 7) =~= digest@.take(7));
                assert(false);
            }
        }
        return Err(ImportError::MissingDigestPrefix);
    }
    let bare = String::from_str(digest.as_str().substring_char(7, dlen));
    proof {
        reveal_strlit("sha256:");
        assert("sha256:"@.take(7) =~= "sha256:"@);
        assert(digest@ =~= "sha256:"@ + bare@);
        assert(has_sha256_prefix(digest@)) by {
            assert("sha256:"@ =~= digest@.subrange(0, 7));
        }
    }
    Ok(bare)
}

/// The digest string recorded for a fetched manifest: the scheme prefix plus
/// the lowercase hex SHA-256 of the raw manifest bytes.
pub fn manifest_digest(raw: &[u8]) -> (r: Result<String, ImportError>)
    ensures
        r matches Ok(s) ==> s@ == "sha256:"@ + hex_of(sha256_of(raw@)),
        r matches Err(e) ==> e == ImportError::DigestFailed,
{
    let digest = match crate::digest::sha256(raw) {
        Ok(d) => d,
        Err(_) => {
            return Err(ImportError::DigestFailed);
        },
    };
    let hexed = crate::digest::hex_encode(digest.as_slice());
    let mut s = String::from_str("sha256:");
    s.append(hexed.as_str());
    Ok(s)
}

/// Refuse to proceed when the reference trusts the ambient policy and that
/// policy accepts anything unconditionally.
pub fn check_policy(sigverify: &SignatureSource, policy_is_default_insecure: bool) -> (r: Result<
    (),
    ImportError,
>)
    ensures
        r is Ok <==> !(sigverify is ContainerPolicy && policy_is_default_insecure),
        r matches Err(e) ==> e == ImportError::InsecurePolicy,
{
    match sigverify {
        SignatureSource::ContainerPolicy => {
            if policy_is_default_insecure {
                Err(ImportError::InsecurePolicy)
            } else {
                Ok(())
            }
        },
        _ => Ok(()),
    }
}

/// Where the file-name part of a path text begins: right after the last
/// separator, or at the start when there is none. A path ending in a
/// separator has an empty file name.
pub open spec fn fname_start(p: Seq<char>) -> int
    decreases p.len(),
{
    if p.len() == 0 {
        0
    } else if p.last() == '/' {
        p.len() as int
    } else {
        fname_start(p.drop_last())
    }
}

/// The file-name part of a path text. The path is read literally: one that
/// ends in a separator has an empty file name, so a directory-style spelling
/// never carries an extension.
pub open spec fn spec_file_name(p: Seq<char>) -> Seq<char> {
    p.skip(fname_start(p))
}

/// Whether a path text carries the archive-member extension `tar`.
pub open spec fn spec_has_ext_tar(p: Seq<char>) -> bool {
    spec_file_name(p).len() >= 5 && spec_file_name(p).skip(spec_file_name(p).len() - 4)
        == ".tar"@
}

/// Where the file name of `p` begins.
fn file_name_start(p: &str) -> (r: usize)
    ensures
        r == fname_start(p@),
        r <= p@.len(),
{
    let n = p.unicode_len();
    let mut i: usize = n;
    proof {
        assert(p@.take(n as int) =~= p@);
    }
    while i > 0
        invariant
            0 <= i <= n,
            n == p@.len(),
            fname_start(p@) == fname_start(p@.take(i as int)),
        decreases i,
    {
        if p.get_char(i - 1) == '/' {
            proof {
                assert(p@.take(i as int).last() == p@[i - 1]);
            }
            return i;
        }
        proof {
            assert(p@.take(i as int).drop_last() =~= p@.take(i - 1 as int));
        }
        i = i - 1;
    }
    proof {
        assert(p@.take(0) =~= Seq::<char>::empty());
    }
    0
}

/// Whether the path carries the `tar` extension.
fn has_tar_ext(p: &str) -> (r: bool)
    ensures
        r == spec_has_ext_tar(p@),
{
    let n = p.unicode_len();
    let s = file_name_start(p);
    if n - s < 5 {
        return false;
    }
    proof {
        reveal_strlit(".tar");
    }
    let r = p.get_char(n - 4) == '.' && p.get_char(n - 3) == 't' && p.get_char(n - 2) == 'a'
        && p.get_char(n - 1) == 'r';
    proof {
        let f = spec_file_name(p@);
        assert(f.len() == n - s);
        if r {
            assert(f.skip(f.len() - 4) =~= ".tar"@);
        } else {
            assert(f.skip(f.len() - 4)[0] == p@[n - 4 as int]);
            assert(f.skip(f.len() - 4)[1] == p@[n - 3 as int]);
            assert(f.skip(f.len() - 4)[2] == p@[n - 2 as int]);
            assert(f.skip(f.len() - 4)[3] == p@[n - 1 as int]);
        }
    }
    r
}

/// What the archive scan sees of one entry's type.
#[derive(Clone, Copy, PartialEq, Eq, Structural, Debug)]
pub enum ScanEntryKind {
    Regular,
    Symlink,
    Other,
}

/// One entry of the staged archive-of-archives, as the scan reads it.
pub struct ScanEntry {
    pub path: String,
    pub kind: ScanEntryKind,
    pub link_target: Option<String>,
    pub data: Vec<u8>,
}

/// What the scan decides for a sequence of entries: the bytes of the first
/// regular `.tar`-suffixed entry, an error for a compatibility alias that
/// points elsewhere than `expected`, or layer-not-found at the end.
pub open spec fn spec_find_layer(es: Seq<ScanEntry>, expected: Seq<char>) -> Result<
    Seq<u8>,
    ImportError,
>
    decreases es.len(),
{
    if es.len() == 0 {
        Result::Err(ImportError::LayerNotFound)
    } else {
        let e = es[0];
        if !spec_has_ext_tar(e.path@) {
            spec_find_layer(es.skip(1), expected)
        } else if e.kind is Symlink {
            if spec_file_name(e.path@) == "layer.tar"@ {
                if e.link_target is None {
                    Result::Err(ImportError::InvalidLink)
                } else if e.link_target->Some_0@ != expected {
                    Result::Err(ImportError::UnexpectedLayerLink)
                } else {
                    spec_find_layer(es.skip(1), expected)
                }
            } else {
                spec_find_layer(es.skip(1), expected)
            }
        } else if e.kind is Regular {
            Result::Ok(e.data@)
        } else {
            spec_find_layer(es.skip(1), expected)
        }
    }
}

/// Decide one entry of the staged archive: `Ok(true)` marks the target layer
/// whose bytes are forwarded, `Ok(false)` an entry to read and discard, and
/// an error aborts the scan.
pub fn classify_entry(
    path: &String,
    kind: ScanEntryKind,
    link_target: &Option<String>,
    expected: &String,
) -> (r: Result<bool, ImportError>)
    ensures
        !spec_has_ext_tar(path@) ==> r == Result::<bool, ImportError>::Ok(false),
        spec_has_ext_tar(path@) && kind is Symlink && spec_file_name(path@) == "layer.tar"@
            && link_target is None ==> r == Result::<bool, ImportError>::Err(
            ImportError::InvalidLink,
        ),
        spec_has_ext_tar(path@) && kind is Symlink && spec_file_name(path@) == "layer.tar"@
            && (link_target matches Some(t) && t@ != expected@) ==> r == Result::<
            bool,
            ImportError,
        >::Err(ImportError::UnexpectedLayerLink),
        spec_has_ext_tar(path@) && kind is Symlink && (spec_file_name(path@) != "layer.tar"@ || (
        link_target matches Some(t) && t@ == expected@)) ==> r == Result::<bool, ImportError>::Ok(
            false,
        ),
        spec_has_ext_tar(path@) && kind is Regular ==> r == Result::<bool, ImportError>::Ok(true),
        spec_has_ext_tar(path@) && kind is Other ==> r == Result::<bool, ImportError>::Ok(false),
{
    if !has_tar_ext(path.as_str()) {
        return Ok(false);
    }
    match kind {
        ScanEntryKind::Symlink => {
            let n = path.as_str().unicode_len();
            let s = file_name_start(path.as_str());
            let fname = path.as_str().substring_char(s, n);
            proof {
                assert(fname@ =~= spec_file_name(path@));
            }
            if str_equal(fname, "layer.tar") {
                match link_target {
                    None => Err(ImportError::InvalidLink),
                    Some(t) => {
                        if !str_equal(t.as_str(), expected.as_str()) {
                            Err(ImportError::UnexpectedLayerLink)
                        } else {
                            Ok(false)
                        }
                    },
                }
            } else {
                Ok(false)
            }
        },
        ScanEntryKind::Regular => Ok(true),
        ScanEntryKind::Other => Ok(false),
    }
}

/// Scan a staged archive for the target layer and hand back its bytes.
/// Entries before the target are validated or discarded exactly as
/// `spec_find_layer` says; the scan fails only as that decision does.
pub fn find_layer_tar_sync(entries: &Vec<ScanEntry>, blob_symlink_target: &String) -> (r: Result<
    Vec<u8>,
    ImportError,
>)
    ensures
        r matches Ok(v) ==> (spec_find_layer(entries@, blob_symlink_target@) matches Ok(s) && v@
            == s),
        r matches Err(e) ==> spec_find_layer(entries@, blob_symlink_target@) == Result::<
            Seq<u8>,
            ImportError,
        >::Err(e),
{
    let ghost expected = blob_symlink_target@;
    let n = entries.len();
    let mut i: usize = 0;
    proof {
        assert(entries@.skip(0) =~= entries@);
    }
    while i < n
        invariant
            0 <= i <= n,
            n == entries@.len(),
            spec_find_layer(entries@, expected) == spec_find_layer(
                entries@.skip(i as int),
                expected,
            ),
            expected == blob_symlink_target@,
        decreases n - i,
    {
        let e = &entries[i];
        proof {
            assert(entries@.skip(i as int)[0] == entries@[i as int]);
            assert(entries@.skip(i as int).skip(1) =~= entries@.skip(i + 1 as int));
        }
        match classify_entry(&e.path, e.kind, &e.link_target, blob_symlink_target) {
            Ok(true) => {
                return Ok(crate::export::copy_bytes(&e.data));
            },
            Ok(false) => {},
            Err(err) => {
                return Err(err);
            },
        }
        i = i + 1;
    }
    proof {
        assert(entries@.skip(n as int) =~= Seq::<ScanEntry>::empty());
    }
    Err(ImportError::LayerNotFound)
}

/// The symlink target a compatibility alias must point at: `../<blobid>.tar`.
pub fn blob_symlink_target(blobid: &String) -> (r: String)
    ensures
        r@ == "../"@ + blobid@ + ".tar"@,
{
    let mut r = String::from_str("../");
    r.append(blobid.as_str());
    r.append(".tar");
    r
}

} // verus!
