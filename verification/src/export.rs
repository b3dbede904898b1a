//! Archive writer: serialize a commit graph into the ordered list of archive
//! entries that make up the repository layout inside a container layer.
//!
//! The writer owns four per-run deduplication sets (directory-tree,
//! directory-metadata, file-content and attribute objects, each by checksum)
//! and the growing entry list. Its central invariant: an object of a deduped
//! kind stands in the entry list exactly once for each checksum in its set,
//! and never more than once.

use vstd::prelude::*;
use crate::ExportOptions;
use vstd::string::StringSliceAdditionalSpecFns;
use crate::digest::{hex_of, sha256_of};
use crate::paths::{
    ObjectType, is_checksum, not_an_object_path, spec_object_path, str_equal, copy_string,
    join_path, spec_join_path, lemma_map_path_dot, lemma_xattrs_paths_shape, lemma_objpath_ne,
    lemma_not_obj_by_len, lemma_not_obj_by_dot, spec_v0_xattrs_path, spec_v0_xattrs_object_path,
    spec_v1_xattrs_object_path, spec_v1_xattrs_link_object_path,
};

verus! {

/// What one archive entry holds besides path, ownership and mode.
pub enum EntryBody {
    /// A directory.
    Dir,
    /// A regular file with its content bytes.
    Regular(Vec<u8>),
    /// A hardlink to an earlier entry.
    Hardlink(String),
    /// A symlink; `literal` marks a denormal target written with the exact
    /// link-name encoding so it round-trips byte-for-byte.
    Symlink { target: String, literal: bool },
}

/// One archive entry.
pub struct TarEntry {
    pub path: String,
    pub uid: u64,
    pub gid: u64,
    pub mode: u32,
    pub body: EntryBody,
}

/// How many entries of `es` stand at path `p`.
pub open spec fn count_matching(es: Seq<TarEntry>, p: Seq<char>) -> int
    decreases es.len(),
{
    if es.len() == 0 {
        0
    } else {
        count_matching(es.drop_last(), p) + if es.last().path@ == p {
            1int
        } else {
            0int
        }
    }
}

/// The views of a vector of owned strings.
pub open spec fn str_views(v: Seq<String>) -> Seq<Seq<char>> {
    v.map_values(|s: String| s@)
}

/// Objects of kind `t` stand in `es` once per checksum of `written`, and for
/// no other checksum.
pub open spec fn obj_once(es: Seq<TarEntry>, written: Seq<Seq<char>>, t: ObjectType) -> bool {
    forall|c: Seq<char>|
        is_checksum(c) ==> #[trigger] count_matching(es, spec_object_path(t, c)) == (
        if written.contains(c) {
            1int
        } else {
            0int
        })
}

/// The writer's central invariant, over all five object kinds.
pub open spec fn dedup_ok(
    es: Seq<TarEntry>,
    dirtrees: Seq<Seq<char>>,
    dirmetas: Seq<Seq<char>>,
    contents: Seq<Seq<char>>,
    commits: Seq<Seq<char>>,
    commitmetas: Seq<Seq<char>>,
) -> bool {
    &&& obj_once(es, dirtrees, ObjectType::DirTree)
    &&& obj_once(es, dirmetas, ObjectType::DirMeta)
    &&& obj_once(es, contents, ObjectType::File)
    &&& obj_once(es, commits, ObjectType::Commit)
    &&& obj_once(es, commitmetas, ObjectType::CommitMeta)
}

/// Appending an entry raises the count at its own path by one and changes no
/// other count.
pub proof fn lemma_count_push(es: Seq<TarEntry>, e: TarEntry, p: Seq<char>)
    ensures
        count_matching(es.push(e), p) == count_matching(es, p) + if e.path@ == p {
            1int
        } else {
            0int
        },
{
    assert(es.push(e).drop_last() =~= es);
}

/// A positive count at a path yields an entry index bearing that path.
pub proof fn lemma_count_pos_exists(es: Seq<TarEntry>, p: Seq<char>)
    requires
        count_matching(es, p) > 0,
    ensures
        exists|i: int| 0 <= i < es.len() && (#[trigger] es[i]).path@ == p,
    decreases es.len(),
{
    if es.len() > 0 {
        if es.last().path@ == p {
            assert(es[es.len() - 1].path@ == p);
        } else {
            lemma_count_pos_exists(es.drop_last(), p);
            let i = choose|i: int|
                0 <= i < es.drop_last().len() && (#[trigger] es.drop_last()[i]).path@ == p;
            assert(es[i].path@ == p);
        }
    }
}

/// How many directory entries of `es` stand at path `p`.
pub open spec fn count_dir_matching(es: Seq<TarEntry>, p: Seq<char>) -> int
    decreases es.len(),
{
    if es.len() == 0 {
        0
    } else {
        count_dir_matching(es.drop_last(), p) + if es.last().path@ == p && es.last().body
            is Dir {
            1int
        } else {
            0int
        }
    }
}

/// An extension that adds no directory entry at `p` leaves its count alone.
pub proof fn lemma_count_dir_no_new(a: Seq<TarEntry>, b: Seq<TarEntry>, p: Seq<char>)
    requires
        extends(a, b),
        forall|idx: int|
            a.len() <= idx < b.len() ==> !((#[trigger] b[idx]).body is Dir && b[idx].path@ == p),
    ensures
        count_dir_matching(b, p) == count_dir_matching(a, p),
    decreases b.len() - a.len(),
{
    if a.len() == b.len() {
        assert(a =~= b);
    } else {
        assert(extends(a, b.drop_last())) by {
            assert(b.drop_last().subrange(0, a.len() as int) =~= b.subrange(0, a.len() as int));
        }
        lemma_count_dir_no_new(a, b.drop_last(), p);
        assert(!(b[b.len() - 1].body is Dir && b[b.len() - 1].path@ == p));
    }
}

/// A list with no directory entry at `p` counts zero there.
pub proof fn lemma_count_dir_zero(es: Seq<TarEntry>, p: Seq<char>)
    requires
        forall|idx: int|
            0 <= idx < es.len() ==> !((#[trigger] es[idx]).body is Dir && es[idx].path@ == p),
    ensures
        count_dir_matching(es, p) == 0,
    decreases es.len(),
{
    if es.len() > 0 {
        lemma_count_dir_zero(es.drop_last(), p);
    }
}

/// A pushed sequence contains exactly the old elements and the new one.
pub proof fn lemma_contains_push(w: Seq<Seq<char>>, x: Seq<char>, c: Seq<char>)
    ensures
        w.push(x).contains(c) == (w.contains(c) || c == x),
{
    if w.contains(c) {
        let i = choose|i: int| 0 <= i < w.len() && w[i] == c;
        assert(w.push(x)[i] == c);
    }
    if c == x {
        assert(w.push(x)[w.len() as int] == c);
    }
    if w.push(x).contains(c) {
        let i = choose|i: int| 0 <= i < w.push(x).len() && w.push(x)[i] == c;
        if i < w.len() {
            assert(w[i] == c);
        }
    }
}

/// Pushing an entry off every object path preserves one kind's count clause.
pub proof fn lemma_obj_once_push_off(
    es: Seq<TarEntry>,
    e: TarEntry,
    w: Seq<Seq<char>>,
    t: ObjectType,
)
    requires
        obj_once(es, w, t),
        not_an_object_path(e.path@),
    ensures
        obj_once(es.push(e), w, t),
{
    assert forall|c: Seq<char>| is_checksum(c) implies #[trigger] count_matching(
        es.push(e),
        spec_object_path(t, c),
    ) == (if w.contains(c) {
        1int
    } else {
        0int
    }) by {
        lemma_count_push(es, e, spec_object_path(t, c));
    }
}

/// Pushing an entry off every object path preserves the whole invariant.
pub proof fn lemma_push_scaffold(
    es: Seq<TarEntry>,
    e: TarEntry,
    dirtrees: Seq<Seq<char>>,
    dirmetas: Seq<Seq<char>>,
    contents: Seq<Seq<char>>,
    commits: Seq<Seq<char>>,
    commitmetas: Seq<Seq<char>>,
)
    requires
        dedup_ok(es, dirtrees, dirmetas, contents, commits, commitmetas),
        not_an_object_path(e.path@),
    ensures
        dedup_ok(es.push(e), dirtrees, dirmetas, contents, commits, commitmetas),
{
    lemma_obj_once_push_off(es, e, dirtrees, ObjectType::DirTree);
    lemma_obj_once_push_off(es, e, dirmetas, ObjectType::DirMeta);
    lemma_obj_once_push_off(es, e, contents, ObjectType::File);
    lemma_obj_once_push_off(es, e, commits, ObjectType::Commit);
    lemma_obj_once_push_off(es, e, commitmetas, ObjectType::CommitMeta);
}

/// Pushing the object of kind `t0` for a checksum not yet in its set extends
/// that set's clause and preserves the other kinds' clauses.
pub proof fn lemma_obj_once_push_new(
    es: Seq<TarEntry>,
    e: TarEntry,
    w: Seq<Seq<char>>,
    t0: ObjectType,
    c0: Seq<char>,
)
    requires
        obj_once(es, w, t0),
        is_checksum(c0),
        e.path@ == spec_object_path(t0, c0),
        !w.contains(c0),
    ensures
        obj_once(es.push(e), w.push(c0), t0),
{
    assert forall|c: Seq<char>| is_checksum(c) implies #[trigger] count_matching(
        es.push(e),
        spec_object_path(t0, c),
    ) == (if w.push(c0).contains(c) {
        1int
    } else {
        0int
    }) by {
        lemma_count_push(es, e, spec_object_path(t0, c));
        lemma_contains_push(w, c0, c);
        if c != c0 {
            lemma_objpath_ne(t0, c0, t0, c);
        }
    }
}

/// Pushing an object of kind `t0` leaves the count clause of a different kind
/// `t` untouched.
pub proof fn lemma_obj_once_push_other(
    es: Seq<TarEntry>,
    e: TarEntry,
    w: Seq<Seq<char>>,
    t0: ObjectType,
    c0: Seq<char>,
    t: ObjectType,
)
    requires
        obj_once(es, w, t),
        is_checksum(c0),
        e.path@ == spec_object_path(t0, c0),
        t != t0,
    ensures
        obj_once(es.push(e), w, t),
{
    assert forall|c: Seq<char>| is_checksum(c) implies #[trigger] count_matching(
        es.push(e),
        spec_object_path(t, c),
    ) == (if w.contains(c) {
        1int
    } else {
        0int
    }) by {
        lemma_count_push(es, e, spec_object_path(t, c));
        lemma_objpath_ne(t0, c0, t, c);
    }
}

/// A dedup set only ever grows: every earlier member keeps its place.
pub open spec fn set_grows(a: Seq<String>, b: Seq<String>) -> bool {
    b.len() >= a.len() && (forall|i: int| 0 <= i < a.len() ==> #[trigger] b[i] == a[i])
}

/// Set growth is transitive.
pub proof fn lemma_set_grows_trans(a: Seq<String>, b: Seq<String>, c: Seq<String>)
    requires
        set_grows(a, b),
        set_grows(b, c),
    ensures
        set_grows(a, c),
{
    assert forall|i: int| 0 <= i < a.len() implies #[trigger] c[i] == a[i] by {
        assert(b[i] == a[i]);
        assert(c[i] == b[i]);
    }
}

/// A grown set still holds every checksum the old one held.
pub proof fn lemma_grows_contains(a: Seq<String>, b: Seq<String>, c: Seq<char>)
    requires
        set_grows(a, b),
        str_views(a).contains(c),
    ensures
        str_views(b).contains(c),
{
    let i = choose|i: int| 0 <= i < str_views(a).len() && str_views(a)[i] == c;
    assert(str_views(b)[i] == c);
}

/// The views of a pushed string vector are the pushed views.
pub proof fn lemma_str_views_push(v: Seq<String>, s: String)
    ensures
        str_views(v.push(s)) =~= str_views(v).push(s@),
{
}

/// The repository mode a tar export stream declares.
pub const BARE_SPLIT_XATTRS_MODE: &'static str = "bare-split-xattrs";

/// The repository configuration content that identifies a tar export.
pub const REPO_CONFIG: &'static str = "[core]\nrepo_version=1\nmode=bare-split-xattrs\n";

/// Why an export run stops.
#[derive(Clone, Copy, PartialEq, Eq, Structural, Debug)]
pub enum ExportError {
    /// The requested archive format version has no defined layout.
    UnsupportedFormat(u32),
    /// A checksum in the commit graph is not 64 lowercase hex digits.
    InvalidChecksum,
    /// A file object came without its metadata record.
    MissingMetadata,
    /// A file object came without its extended-attribute blob.
    MissingXattrs,
    /// A symlink object came without its target.
    MissingSymlinkTarget,
    /// A file object's content does not fit its recorded type.
    WrongFileType,
    /// The attribute-blob digest computation failed.
    Digest,
}

/// An extension of `a` by zero or more entries.
pub open spec fn extends(a: Seq<TarEntry>, b: Seq<TarEntry>) -> bool {
    a.is_prefix_of(b)
}

/// An extension keeps every earlier entry in place.
pub proof fn lemma_extends_index(a: Seq<TarEntry>, b: Seq<TarEntry>, i: int)
    requires
        extends(a, b),
        0 <= i < a.len(),
    ensures
        b[i] == a[i],
{
    assert(a[i] == b.subrange(0, a.len() as int)[i]);
}

/// Extension is transitive.
pub proof fn lemma_extends_trans(a: Seq<TarEntry>, b: Seq<TarEntry>, c: Seq<TarEntry>)
    requires
        extends(a, b),
        extends(b, c),
    ensures
        extends(a, c),
{
    assert(c.subrange(0, a.len() as int) =~= b.subrange(0, a.len() as int));
}

/// A one-character string slice holding the lowercase hex digit of value `v`.
fn hex_digit_str(v: u8) -> (r: &'static str)
    requires
        v < 16,
    ensures
        r@ =~= seq![crate::digest::spec_hex_digit(v as int)],
{
    proof {
        reveal_strlit("0");
        reveal_strlit("1");
        reveal_strlit("2");
        reveal_strlit("3");
        reveal_strlit("4");
        reveal_strlit("5");
        reveal_strlit("6");
        reveal_strlit("7");
        reveal_strlit("8");
        reveal_strlit("9");
        reveal_strlit("a");
        reveal_strlit("b");
        reveal_strlit("c");
        reveal_strlit("d");
        reveal_strlit("e");
        reveal_strlit("f");
    }
    match v {
        0 => "0",
        1 => "1",
        2 => "2",
        3 => "3",
        4 => "4",
        5 => "5",
        6 => "6",
        7 => "7",
        8 => "8",
        9 => "9",
        10 => "a",
        11 => "b",
        12 => "c",
        13 => "d",
        14 => "e",
        _ => "f",
    }
}

/// An owned copy of a byte vector.
pub(crate) fn copy_bytes(v: &Vec<u8>) -> (r: Vec<u8>)
    ensures
        r@ == v@,
{
    let mut r: Vec<u8> = Vec::new();
    let mut i: usize = 0;
    while i < v.len()
        invariant
            0 <= i <= v@.len(),
            r@ == v@.take(i as int),
        decreases v@.len() - i,
    {
        r.push(v[i]);
        proof {
            assert(v@.take(i + 1 as int) =~= v@.take(i as int).push(v@[i as int]));
        }
        i = i + 1;
    }
    proof {
        assert(v@.take(v@.len() as int) =~= v@);
    }
    r
}

/// An object entry: the object's bytes as a default-permission regular file at
/// its canonical path.
pub open spec fn is_object_entry(e: TarEntry, t: ObjectType, c: Seq<char>, data: Seq<u8>) -> bool {
    &&& e.path@ == spec_object_path(t, c)
    &&& e.uid == 0
    &&& e.gid == 0
    &&& e.mode == 0o644
    &&& (e.body matches EntryBody::Regular(d) && d@ == data)
}

/// The repository-configuration file's location, by format version.
pub open spec fn spec_config_path(fv: u32) -> Seq<char> {
    if fv == 0 {
        "sysroot/config"@
    } else {
        "sysroot/ostree/repo/config"@
    }
}

/// A scaffold directory entry: default ownership, mode 0755.
pub open spec fn is_scaffold_dir_entry(e: TarEntry, p: Seq<char>) -> bool {
    &&& e.path@ == p
    &&& e.uid == 0
    &&& e.gid == 0
    &&& e.mode == 0o755
    &&& e.body is Dir
}

/// The object shard subdirectory for byte value `d`.
pub open spec fn spec_shard_path(d: int) -> Seq<char> {
    "sysroot/ostree/repo/objects/"@ + seq![
        crate::digest::spec_hex_digit(d / 16),
        crate::digest::spec_hex_digit(d % 16),
    ]
}

/// How many entries the scaffolding adds: four ancestors, 256 shard
/// directories, six temp and ref directories, the format-0-only shared
/// attributes directory, and the configuration file.
pub open spec fn scaffold_len(fv: u32) -> int {
    if fv == 0 {
        268int
    } else {
        267int
    }
}

/// A default-permission regular-file entry at `p` holding `data`.
pub open spec fn is_default_data_entry(e: TarEntry, p: Seq<char>, data: Seq<u8>) -> bool {
    &&& e.path@ == p
    &&& e.uid == 0
    &&& e.gid == 0
    &&& e.mode == 0o644
    &&& (e.body matches EntryBody::Regular(d) && d@ == data)
}

/// The fixed scaffolding stands as one block at position `n0`: the four
/// ancestor directories, the 256 shard directories in order, the temp and
/// ref namespaces, the format-0-only shared attributes directory, and the
/// repository-configuration file declaring the storage mode.
pub open spec fn scaffold_at(es: Seq<TarEntry>, n0: int, fv: u32) -> bool {
    &&& n0 >= 0
    &&& es.len() >= n0 + scaffold_len(fv)
    &&& is_scaffold_dir_entry(es[n0], "sysroot"@)
    &&& is_scaffold_dir_entry(es[n0 + 1], "sysroot/ostree"@)
    &&& is_scaffold_dir_entry(es[n0 + 2], "sysroot/ostree/repo"@)
    &&& is_scaffold_dir_entry(es[n0 + 3], "sysroot/ostree/repo/objects"@)
    &&& (forall|d: int|
        0 <= d < 256 ==> is_scaffold_dir_entry(#[trigger] es[n0 + 4 + d], spec_shard_path(d)))
    &&& is_scaffold_dir_entry(es[n0 + 260], "sysroot/ostree/repo/tmp"@)
    &&& is_scaffold_dir_entry(es[n0 + 261], "sysroot/ostree/repo/tmp/cache"@)
    &&& is_scaffold_dir_entry(es[n0 + 262], "sysroot/ostree/repo/refs"@)
    &&& is_scaffold_dir_entry(es[n0 + 263], "sysroot/ostree/repo/refs/heads"@)
    &&& is_scaffold_dir_entry(es[n0 + 264], "sysroot/ostree/repo/refs/mirrors"@)
    &&& is_scaffold_dir_entry(es[n0 + 265], "sysroot/ostree/repo/refs/remotes"@)
    &&& (fv == 0 ==> is_scaffold_dir_entry(es[n0 + 266], "sysroot/ostree/repo/xattrs"@))
    &&& is_default_data_entry(
        es[n0 + scaffold_len(fv) - 1],
        spec_config_path(fv),
        REPO_CONFIG.spec_bytes(),
    )
}

/// The scaffold block survives any extension of the entry list.
pub proof fn lemma_scaffold_at_extends(a: Seq<TarEntry>, b: Seq<TarEntry>, n0: int, fv: u32)
    requires
        scaffold_at(a, n0, fv),
        extends(a, b),
    ensures
        scaffold_at(b, n0, fv),
{
    lemma_extends_index(a, b, n0);
    lemma_extends_index(a, b, n0 + 1);
    lemma_extends_index(a, b, n0 + 2);
    lemma_extends_index(a, b, n0 + 3);
    assert forall|d: int| 0 <= d < 256 implies is_scaffold_dir_entry(
        #[trigger] b[n0 + 4 + d],
        spec_shard_path(d),
    ) by {
        lemma_extends_index(a, b, n0 + 4 + d);
    }
    lemma_extends_index(a, b, n0 + 260);
    lemma_extends_index(a, b, n0 + 261);
    lemma_extends_index(a, b, n0 + 262);
    lemma_extends_index(a, b, n0 + 263);
    lemma_extends_index(a, b, n0 + 264);
    lemma_extends_index(a, b, n0 + 265);
    if fv == 0 {
        lemma_extends_index(a, b, n0 + 266);
    }
    lemma_extends_index(a, b, n0 + scaffold_len(fv) - 1);
}

/// A default-permission hardlink entry at `p` pointing at `target`.
pub open spec fn is_default_hardlink_entry(e: TarEntry, p: Seq<char>, target: Seq<char>) -> bool {
    &&& e.path@ == p
    &&& e.uid == 0
    &&& e.gid == 0
    &&& e.mode == 0o644
    &&& (e.body matches EntryBody::Hardlink(t) && t@ == target)
}

/// A directory entry at `p` with the given ownership and mode word.
pub open spec fn is_dir_entry(e: TarEntry, p: Seq<char>, uid: u32, gid: u32, mode: u32) -> bool {
    &&& e.path@ == p
    &&& e.uid == uid as u64
    &&& e.gid == gid as u64
    &&& e.mode == mode
    &&& e.body is Dir
}

/// A directory-metadata record: its raw object bytes and the ownership and
/// mode parsed out of them.
pub struct DirMetaObj {
    pub raw: Vec<u8>,
    pub uid: u32,
    pub gid: u32,
    pub mode: u32,
}

/// The POSIX type of a file object as the store records it.
#[derive(Clone, Copy, PartialEq, Eq, Structural, Debug)]
pub enum FileKind {
    Regular,
    Symlink,
    Other,
}

/// The POSIX-style metadata of one file object.
pub struct FileMeta {
    pub uid: u32,
    pub gid: u32,
    pub mode: u32,
    pub kind: FileKind,
}

/// One file object as loaded from the store: metadata, an optional content
/// stream, an optional symlink target, and the raw attribute blob. Absent
/// parts are store defects that abort an export.
pub struct FileObj {
    pub meta: Option<FileMeta>,
    pub content: Option<Vec<u8>>,
    pub symlink_target: Option<String>,
    pub xattrs: Option<Vec<u8>>,
}

/// A complete file object: metadata and attributes present, and the content
/// matching the recorded type.
pub open spec fn file_obj_wf(f: FileObj) -> bool {
    &&& f.meta is Some
    &&& f.xattrs is Some
    &&& (f.content is Some ==> f.meta->Some_0.kind is Regular)
    &&& (f.content is None ==> f.meta->Some_0.kind is Symlink && f.symlink_target is Some)
}

/// A named file entry of a directory tree.
pub struct FileNode {
    pub name: String,
    pub checksum: String,
    pub file: FileObj,
}

/// A named subdirectory entry: its metadata record and its own tree.
pub struct DirNode {
    pub name: String,
    pub meta_checksum: String,
    pub meta: DirMetaObj,
    pub tree: DirTreeObj,
}

/// A directory-tree record: its raw object bytes and its parsed file and
/// subdirectory entries, each subtree held by value.
pub struct DirTreeObj {
    pub checksum: String,
    pub raw: Vec<u8>,
    pub files: Vec<FileNode>,
    pub dirs: Vec<DirNode>,
}

/// A well-formed directory tree: every checksum in it is 64 lowercase hex
/// digits and every file object is complete.
pub open spec fn tree_wf(tree: DirTreeObj) -> bool
    decreases tree,
{
    &&& is_checksum(tree.checksum@)
    &&& (forall|k: int|
        0 <= k < tree.files@.len() ==> is_checksum((#[trigger] tree.files@[k]).checksum@)
            && file_obj_wf(tree.files@[k].file))
    &&& (forall|k: int|
        0 <= k < tree.dirs@.len() ==> is_checksum((#[trigger] tree.dirs@[k]).meta_checksum@)
            && tree_wf(tree.dirs@[k].tree))
}

/// Everything one export run reads from the store: the commit object, its
/// optional detached signature block, the root directory metadata, and the
/// root tree.
pub struct CommitSource {
    pub checksum: String,
    pub raw: Vec<u8>,
    pub detached_meta: Option<Vec<u8>>,
    pub root_meta_checksum: String,
    pub root_meta: DirMetaObj,
    pub root: DirTreeObj,
}

/// A well-formed export source: its checksums are well formed and every
/// file object in the tree is complete. On such a source an export fails
/// only if a digest computation does.
pub open spec fn commit_source_wf(src: CommitSource) -> bool {
    &&& is_checksum(src.checksum@)
    &&& is_checksum(src.root_meta_checksum@)
    &&& tree_wf(src.root)
}

/// Ownership and mode for the hardlink that mirrors a content object at its
/// logical path.
pub struct LinkHeader {
    pub uid: u64,
    pub gid: u64,
    pub mode: u32,
}

/// The stateful archive writer for one export run.
pub struct TarWriter {
    pub options: ExportOptions,
    pub wrote_initdirs: bool,
    pub wrote_dirtree: Vec<String>,
    pub wrote_dirmeta: Vec<String>,
    pub wrote_content: Vec<String>,
    pub wrote_xattrs: Vec<String>,
    pub entries: Vec<TarEntry>,
    /// Checksums of commit objects written; no set dedups them, the run
    /// writes its one commit once.
    pub commits: Ghost<Seq<Seq<char>>>,
    /// Checksums of detached commit-metadata objects written.
    pub commitmetas: Ghost<Seq<Seq<char>>>,
}

impl TarWriter {
    /// The dedup invariant over the writer's own sets and entries.
    pub open spec fn inv(self) -> bool {
        dedup_ok(
            self.entries@,
            str_views(self.wrote_dirtree@),
            str_views(self.wrote_dirmeta@),
            str_views(self.wrote_content@),
            self.commits@,
            self.commitmetas@,
        )
    }

    /// The fields that every append leaves alone.
    pub open spec fn same_config(self, other: TarWriter) -> bool {
        &&& self.options == other.options
        &&& self.wrote_initdirs == other.wrote_initdirs
    }

    /// The dedup sets, unchanged.
    pub open spec fn same_sets(self, other: TarWriter) -> bool {
        &&& self.wrote_dirtree == other.wrote_dirtree
        &&& self.wrote_dirmeta == other.wrote_dirmeta
        &&& self.wrote_content == other.wrote_content
        &&& self.wrote_xattrs == other.wrote_xattrs
        &&& self.commits == other.commits
        &&& self.commitmetas == other.commitmetas
    }

    /// A fresh writer: empty sets, no entries yet.
    pub fn new(options: ExportOptions) -> (r: TarWriter)
        ensures
            r.inv(),
            r.options == options,
            !r.wrote_initdirs,
            r.entries@.len() == 0,
            r.wrote_dirtree@.len() == 0,
            r.wrote_dirmeta@.len() == 0,
            r.wrote_content@.len() == 0,
            r.wrote_xattrs@.len() == 0,
            r.commits@.len() == 0,
            r.commitmetas@.len() == 0,
    {
        TarWriter {
            options,
            wrote_initdirs: false,
            wrote_dirtree: Vec::new(),
            wrote_dirmeta: Vec::new(),
            wrote_content: Vec::new(),
            wrote_xattrs: Vec::new(),
            entries: Vec::new(),
            commits: Ghost(Seq::empty()),
            commitmetas: Ghost(Seq::empty()),
        }
    }

    /// The archive mode word for a store mode: format 0 keeps the file-type
    /// bits for historical compatibility, later formats store the permission
    /// bits alone.
    pub fn filter_mode(&self, mode: u32) -> (r: u32)
        ensures
            r == (if self.options.format_version == 0 {
                mode
            } else {
                mode & 0x0000_0FFF
            }),
    {
        if self.options.format_version == 0 {
            mode
        } else {
            mode & 0x0000_0FFF
        }
    }

    /// Append a directory entry with default ownership and permissions
    /// (root/root 0755).
    fn append_default_dir(&mut self, path: String)
        ensures
            final(self).entries@ == old(self).entries@.push(
                (TarEntry { path, uid: 0, gid: 0, mode: 0o755, body: EntryBody::Dir }),
            ),
            final(self).same_config(*old(self)),
            final(self).same_sets(*old(self)),
    {
        self.entries.push(TarEntry { path, uid: 0, gid: 0, mode: 0o755, body: EntryBody::Dir });
    }

    /// Append a regular-file entry with default ownership and permissions
    /// (root/root 0644).
    fn append_default_data(&mut self, path: String, data: Vec<u8>)
        ensures
            final(self).entries@ == old(self).entries@.push(
                (TarEntry { path, uid: 0, gid: 0, mode: 0o644, body: EntryBody::Regular(data) }),
            ),
            final(self).same_config(*old(self)),
            final(self).same_sets(*old(self)),
    {
        self.entries.push(
            TarEntry { path, uid: 0, gid: 0, mode: 0o644, body: EntryBody::Regular(data) },
        );
    }

    /// Append a scaffold directory; its path must be off every object path,
    /// which its length shows.
    fn append_scaffold_dir(&mut self, path: String)
        requires
            old(self).inv(),
            path@.len() != 98,
            path@.len() != 100,
            path@.len() != 101,
            path@.len() != 104,
        ensures
            final(self).inv(),
            final(self).same_config(*old(self)),
            final(self).same_sets(*old(self)),
            final(self).entries@ == old(self).entries@.push(
                (TarEntry { path, uid: 0, gid: 0, mode: 0o755, body: EntryBody::Dir }),
            ),
            extends(old(self).entries@, final(self).entries@),
    {
        proof {
            lemma_not_obj_by_len(path@);
        }
        let ghost pre = *self;
        self.append_default_dir(path);
        proof {
            lemma_push_scaffold(
                pre.entries@,
                self.entries@.last(),
                str_views(pre.wrote_dirtree@),
                str_views(pre.wrote_dirmeta@),
                str_views(pre.wrote_content@),
                pre.commits@,
                pre.commitmetas@,
            );
            assert(pre.entries@.is_prefix_of(self.entries@)) by {
                assert(self.entries@.subrange(0, pre.entries@.len() as int) =~= pre.entries@);
            }
        }
    }

    /// Append a scaffold regular file; its path must be off every object
    /// path, which its length shows.
    fn append_scaffold_data(&mut self, path: String, data: Vec<u8>)
        requires
            old(self).inv(),
            path@.len() != 98,
            path@.len() != 100,
            path@.len() != 101,
            path@.len() != 104,
        ensures
            final(self).inv(),
            final(self).same_config(*old(self)),
            final(self).same_sets(*old(self)),
            final(self).entries@ == old(self).entries@.push(
                (TarEntry { path, uid: 0, gid: 0, mode: 0o644, body: EntryBody::Regular(data) }),
            ),
            extends(old(self).entries@, final(self).entries@),
    {
        proof {
            lemma_not_obj_by_len(path@);
        }
        let ghost pre = *self;
        self.append_default_data(path, data);
        proof {
            lemma_push_scaffold(
                pre.entries@,
                self.entries@.last(),
                str_views(pre.wrote_dirtree@),
                str_views(pre.wrote_dirmeta@),
                str_views(pre.wrote_content@),
                pre.commits@,
                pre.commitmetas@,
            );
            assert(pre.entries@.is_prefix_of(self.entries@)) by {
                assert(self.entries@.subrange(0, pre.entries@.len() as int) =~= pre.entries@);
            }
        }
    }

    /// Append a scaffold hardlink; its path must be off every object path,
    /// which its length shows.
    fn append_scaffold_hardlink(&mut self, path: String, link_target: String)
        requires
            old(self).inv(),
            path@.len() != 98,
            path@.len() != 100,
            path@.len() != 101,
            path@.len() != 104,
        ensures
            final(self).inv(),
            final(self).same_config(*old(self)),
            final(self).same_sets(*old(self)),
            final(self).entries@ == old(self).entries@.push(
                (TarEntry {
                    path,
                    uid: 0,
                    gid: 0,
                    mode: 0o644,
                    body: EntryBody::Hardlink(link_target),
                }),
            ),
            extends(old(self).entries@, final(self).entries@),
    {
        proof {
            lemma_not_obj_by_len(path@);
        }
        let ghost pre = *self;
        self.append_default_hardlink(path, link_target);
        proof {
            lemma_push_scaffold(
                pre.entries@,
                self.entries@.last(),
                str_views(pre.wrote_dirtree@),
                str_views(pre.wrote_dirmeta@),
                str_views(pre.wrote_content@),
                pre.commits@,
                pre.commitmetas@,
            );
            assert(pre.entries@.is_prefix_of(self.entries@)) by {
                assert(self.entries@.subrange(0, pre.entries@.len() as int) =~= pre.entries@);
            }
        }
    }

    /// Write a directory entry at a logical tree path, with the ownership and
    /// mode of its metadata record.
    pub fn append_dir(&mut self, dirpath: String, meta: &DirMetaObj)
        requires
            old(self).inv(),
            dirpath@.len() > 0,
            dirpath@[0] == '.',
        ensures
            final(self).inv(),
            final(self).same_config(*old(self)),
            final(self).same_sets(*old(self)),
            final(self).entries@ == old(self).entries@.push(
                (TarEntry {
                    path: dirpath,
                    uid: meta.uid as u64,
                    gid: meta.gid as u64,
                    mode: (if old(self).options.format_version == 0 {
                        meta.mode
                    } else {
                        meta.mode & 0x0000_0FFF
                    }),
                    body: EntryBody::Dir,
                }),
            ),
            extends(old(self).entries@, final(self).entries@),
    {
        proof {
            lemma_not_obj_by_dot(dirpath@);
        }
        let ghost pre = *self;
        let mode = self.filter_mode(meta.mode);
        self.entries.push(
            TarEntry {
                path: dirpath,
                uid: meta.uid as u64,
                gid: meta.gid as u64,
                mode,
                body: EntryBody::Dir,
            },
        );
        proof {
            lemma_push_scaffold(
                pre.entries@,
                self.entries@.last(),
                str_views(pre.wrote_dirtree@),
                str_views(pre.wrote_dirmeta@),
                str_views(pre.wrote_content@),
                pre.commits@,
                pre.commitmetas@,
            );
            assert(pre.entries@.is_prefix_of(self.entries@)) by {
                assert(self.entries@.subrange(0, pre.entries@.len() as int) =~= pre.entries@);
            }
        }
    }

    /// Write the hardlink that stands for a file at its logical tree path,
    /// pointing at the canonical content object, with the file's own
    /// ownership and mode.
    fn append_tree_hardlink(&mut self, path: String, target: String, header: LinkHeader)
        requires
            old(self).inv(),
            path@.len() > 0,
            path@[0] == '.',
        ensures
            final(self).inv(),
            final(self).same_config(*old(self)),
            final(self).same_sets(*old(self)),
            final(self).entries@ == old(self).entries@.push(
                (TarEntry {
                    path,
                    uid: header.uid,
                    gid: header.gid,
                    mode: header.mode,
                    body: EntryBody::Hardlink(target),
                }),
            ),
            extends(old(self).entries@, final(self).entries@),
    {
        proof {
            lemma_not_obj_by_dot(path@);
        }
        let ghost pre = *self;
        self.entries.push(
            TarEntry {
                path,
                uid: header.uid,
                gid: header.gid,
                mode: header.mode,
                body: EntryBody::Hardlink(target),
            },
        );
        proof {
            lemma_push_scaffold(
                pre.entries@,
                self.entries@.last(),
                str_views(pre.wrote_dirtree@),
                str_views(pre.wrote_dirmeta@),
                str_views(pre.wrote_content@),
                pre.commits@,
                pre.commitmetas@,
            );
            assert(pre.entries@.is_prefix_of(self.entries@)) by {
                assert(self.entries@.subrange(0, pre.entries@.len() as int) =~= pre.entries@);
            }
        }
    }

    /// Export a file's attribute blob. Returns whether content was written:
    /// under format 0 an empty blob writes nothing; otherwise the blob goes
    /// out once per unseen digest, followed by a link object for the owning
    /// file. The deduplication set records the owning file's checksum even
    /// though the blob is keyed by its own digest; that keying is part of the
    /// on-disk contract.
    pub fn append_xattrs(&mut self, checksum: &String, xattrs: &Vec<u8>) -> (r: Result<
        bool,
        ExportError,
    >)
        requires
            old(self).inv(),
            is_checksum(checksum@),
        ensures
            final(self).inv(),
            final(self).same_config(*old(self)),
            final(self).wrote_dirtree == old(self).wrote_dirtree,
            final(self).wrote_dirmeta == old(self).wrote_dirmeta,
            final(self).wrote_content == old(self).wrote_content,
            final(self).commits == old(self).commits,
            final(self).commitmetas == old(self).commitmetas,
            extends(old(self).entries@, final(self).entries@),
            r matches Ok(false) ==> *final(self) == *old(self) && xattrs@.len() == 0 && old(
                self,
            ).options.format_version == 0,
            (xattrs@.len() == 0 && old(self).options.format_version == 0) ==> r matches Ok(false),
            r matches Err(e) ==> *final(self) == *old(self) && (e == ExportError::Digest || (
            e == ExportError::UnsupportedFormat(old(self).options.format_version)
                && !old(self).options.is_supported())),
            old(self).options.is_supported() && !(xattrs@.len() == 0 && old(
                self,
            ).options.format_version == 0) ==> (r matches Ok(true) || r matches Err(
                ExportError::Digest,
            )),
            !old(self).options.is_supported() ==> r is Err,
            r matches Ok(true) ==> ({
                let dg = hex_of(sha256_of(xattrs@));
                let blob_p = if old(self).options.format_version == 0 {
                    spec_v0_xattrs_path(dg)
                } else {
                    spec_v1_xattrs_object_path(dg)
                };
                let link_p = if old(self).options.format_version == 0 {
                    spec_v0_xattrs_object_path(checksum@)
                } else {
                    spec_v1_xattrs_link_object_path(checksum@)
                };
                &&& final(self).entries@.len() > old(self).entries@.len()
                &&& is_default_hardlink_entry(final(self).entries@.last(), link_p, blob_p)
                &&& (!str_views(old(self).wrote_xattrs@).contains(dg) ==> {
                    &&& final(self).entries@.len() == old(self).entries@.len() + 2
                    &&& is_default_data_entry(
                        final(self).entries@[final(self).entries@.len() - 2],
                        blob_p,
                        xattrs@,
                    )
                    &&& str_views(final(self).wrote_xattrs@) == str_views(
                        old(self).wrote_xattrs@,
                    ).push(checksum@)
                })
                &&& (str_views(old(self).wrote_xattrs@).contains(dg) ==> final(self).entries@.len()
                    == old(self).entries@.len() + 1 && final(self).wrote_xattrs == old(
                    self,
                ).wrote_xattrs)
            }),
    {
        let fv = self.options.format_version;
        if xattrs.len() == 0 && fv == 0 {
            return Ok(false);
        }
        let digest = match crate::digest::sha256(xattrs.as_slice()) {
            Ok(d) => d,
            Err(_) => {
                return Err(ExportError::Digest);
            },
        };
        let xattrs_checksum = crate::digest::hex_encode(digest.as_slice());
        proof {
            crate::digest::lemma_hex_of_digest_is_checksum(digest@);
            lemma_xattrs_paths_shape(xattrs_checksum@);
            lemma_xattrs_paths_shape(checksum@);
        }
        if fv == 0 {
            let path = crate::paths::v0_xattrs_path(xattrs_checksum.as_str());
            // Write the blob into the shared attributes directory, once.
            if !set_contains(&self.wrote_xattrs, xattrs_checksum.as_str()) {
                self.wrote_xattrs.push(copy_string(checksum));
                let blob_path = copy_string(&path);
                self.append_scaffold_data(blob_path, copy_bytes(xattrs));
            }
            // Hardlink the per-file attributes path at the shared blob.
            let objpath = crate::paths::v0_xattrs_object_path(checksum.as_str());
            let ghost mid = *self;
            self.append_scaffold_hardlink(objpath, path);
            proof {
                lemma_extends_trans(old(self).entries@, mid.entries@, self.entries@);
            }
            Ok(true)
        } else if fv == 1 {
            let path = crate::paths::v1_xattrs_object_path(xattrs_checksum.as_str());
            // Write the blob as a standalone attribute object, once.
            if !set_contains(&self.wrote_xattrs, xattrs_checksum.as_str()) {
                self.wrote_xattrs.push(copy_string(checksum));
                let blob_path = copy_string(&path);
                self.append_scaffold_data(blob_path, copy_bytes(xattrs));
            }
            // Link the file object to its detached attribute object.
            let link_obj_path = crate::paths::v1_xattrs_link_object_path(checksum.as_str());
            let ghost mid = *self;
            self.append_scaffold_hardlink(link_obj_path, path);
            proof {
                lemma_extends_trans(old(self).entries@, mid.entries@, self.entries@);
            }
            Ok(true)
        } else {
            Err(ExportError::UnsupportedFormat(fv))
        }
    }

    /// Write one metadata object (commit, detached commit metadata,
    /// directory-tree or directory-metadata record): its bytes as a regular
    /// file at the canonical object path, deduplicated by kind and checksum.
    pub fn append(&mut self, objtype: ObjectType, checksum: &String, raw: Vec<u8>) -> (r: Result<
        (),
        ExportError,
    >)
        requires
            old(self).inv(),
            !(objtype is File),
            objtype is Commit && is_checksum(checksum@) ==> !old(self).commits@.contains(
                checksum@,
            ),
            objtype is CommitMeta && is_checksum(checksum@) ==> !old(self).commitmetas@.contains(
                checksum@,
            ),
        ensures
            final(self).inv(),
            final(self).same_config(*old(self)),
            final(self).wrote_xattrs == old(self).wrote_xattrs,
            final(self).wrote_content == old(self).wrote_content,
            extends(old(self).entries@, final(self).entries@),
            set_grows(old(self).wrote_dirtree@, final(self).wrote_dirtree@),
            set_grows(old(self).wrote_dirmeta@, final(self).wrote_dirmeta@),
            r matches Err(e) ==> e == ExportError::InvalidChecksum && !is_checksum(checksum@)
                && *final(self) == *old(self),
            r is Ok ==> is_checksum(checksum@),
            r is Ok && objtype is Commit ==> {
                &&& final(self).entries@ == old(self).entries@.push(final(self).entries@.last())
                &&& is_object_entry(final(self).entries@.last(), objtype, checksum@, raw@)
                &&& final(self).commits@ == old(self).commits@.push(checksum@)
                &&& final(self).commitmetas == old(self).commitmetas
                &&& final(self).wrote_dirtree == old(self).wrote_dirtree
                &&& final(self).wrote_dirmeta == old(self).wrote_dirmeta
            },
            r is Ok && objtype is CommitMeta ==> {
                &&& final(self).entries@ == old(self).entries@.push(final(self).entries@.last())
                &&& is_object_entry(final(self).entries@.last(), objtype, checksum@, raw@)
                &&& final(self).commitmetas@ == old(self).commitmetas@.push(checksum@)
                &&& final(self).commits == old(self).commits
                &&& final(self).wrote_dirtree == old(self).wrote_dirtree
                &&& final(self).wrote_dirmeta == old(self).wrote_dirmeta
            },
            r is Ok && objtype is DirTree ==> {
                &&& str_views(final(self).wrote_dirtree@).contains(checksum@)
                &&& final(self).commits == old(self).commits
                &&& final(self).commitmetas == old(self).commitmetas
                &&& final(self).wrote_dirmeta == old(self).wrote_dirmeta
                &&& (str_views(old(self).wrote_dirtree@).contains(checksum@) ==> *final(self)
                    == *old(self))
                &&& (!str_views(old(self).wrote_dirtree@).contains(checksum@) ==> {
                    &&& final(self).entries@ == old(self).entries@.push(
                        final(self).entries@.last(),
                    )
                    &&& is_object_entry(final(self).entries@.last(), objtype, checksum@, raw@)
                    &&& str_views(final(self).wrote_dirtree@) == str_views(
                        old(self).wrote_dirtree@,
                    ).push(checksum@)
                })
            },
            r is Ok && objtype is DirMeta ==> {
                &&& str_views(final(self).wrote_dirmeta@).contains(checksum@)
                &&& final(self).commits == old(self).commits
                &&& final(self).commitmetas == old(self).commitmetas
                &&& final(self).wrote_dirtree == old(self).wrote_dirtree
                &&& (str_views(old(self).wrote_dirmeta@).contains(checksum@) ==> *final(self)
                    == *old(self))
                &&& (!str_views(old(self).wrote_dirmeta@).contains(checksum@) ==> {
                    &&& final(self).entries@ == old(self).entries@.push(
                        final(self).entries@.last(),
                    )
                    &&& is_object_entry(final(self).entries@.last(), objtype, checksum@, raw@)
                    &&& str_views(final(self).wrote_dirmeta@) == str_views(
                        old(self).wrote_dirmeta@,
                    ).push(checksum@)
                })
            },
    {
        if !crate::paths::validate_checksum(checksum.as_str()) {
            return Err(ExportError::InvalidChecksum);
        }
        let path = crate::paths::object_path(objtype, checksum.as_str());
        match objtype {
            ObjectType::File => {
                proof {
                    assert(false);
                }
                Err(ExportError::WrongFileType)
            },
            ObjectType::Commit => {
                let ghost pre = *self;
                self.append_default_data(path, raw);
                self.commits = Ghost(self.commits@.push(checksum@));
                proof {
                    let e = self.entries@.last();
                    lemma_obj_once_push_new(pre.entries@, e, pre.commits@, objtype, checksum@);
                    lemma_obj_once_push_other(pre.entries@, e, str_views(pre.wrote_dirtree@), objtype, checksum@, ObjectType::DirTree);
                    lemma_obj_once_push_other(pre.entries@, e, str_views(pre.wrote_dirmeta@), objtype, checksum@, ObjectType::DirMeta);
                    lemma_obj_once_push_other(pre.entries@, e, str_views(pre.wrote_content@), objtype, checksum@, ObjectType::File);
                    lemma_obj_once_push_other(pre.entries@, e, pre.commitmetas@, objtype, checksum@, ObjectType::CommitMeta);
                    assert(pre.entries@.is_prefix_of(self.entries@)) by {
                        assert(self.entries@.subrange(0, pre.entries@.len() as int) =~= pre.entries@);
                    }
                }
                Ok(())
            },
            ObjectType::CommitMeta => {
                let ghost pre = *self;
                self.append_default_data(path, raw);
                self.commitmetas = Ghost(self.commitmetas@.push(checksum@));
                proof {
                    let e = self.entries@.last();
                    lemma_obj_once_push_new(pre.entries@, e, pre.commitmetas@, objtype, checksum@);
                    lemma_obj_once_push_other(pre.entries@, e, str_views(pre.wrote_dirtree@), objtype, checksum@, ObjectType::DirTree);
                    lemma_obj_once_push_other(pre.entries@, e, str_views(pre.wrote_dirmeta@), objtype, checksum@, ObjectType::DirMeta);
                    lemma_obj_once_push_other(pre.entries@, e, str_views(pre.wrote_content@), objtype, checksum@, ObjectType::File);
                    lemma_obj_once_push_other(pre.entries@, e, pre.commits@, objtype, checksum@, ObjectType::Commit);
                    assert(pre.entries@.is_prefix_of(self.entries@)) by {
                        assert(self.entries@.subrange(0, pre.entries@.len() as int) =~= pre.entries@);
                    }
                }
                Ok(())
            },
            ObjectType::DirTree => {
                if set_contains(&self.wrote_dirtree, checksum.as_str()) {
                    return Ok(());
                }
                let ghost pre = *self;
                let copy = copy_string(checksum);
                self.wrote_dirtree.push(copy);
                self.append_default_data(path, raw);
                proof {
                    let e = self.entries@.last();
                    lemma_str_views_push(pre.wrote_dirtree@, self.wrote_dirtree@.last());
                    lemma_obj_once_push_new(pre.entries@, e, str_views(pre.wrote_dirtree@), objtype, checksum@);
                    lemma_obj_once_push_other(pre.entries@, e, str_views(pre.wrote_dirmeta@), objtype, checksum@, ObjectType::DirMeta);
                    lemma_obj_once_push_other(pre.entries@, e, str_views(pre.wrote_content@), objtype, checksum@, ObjectType::File);
                    lemma_obj_once_push_other(pre.entries@, e, pre.commits@, objtype, checksum@, ObjectType::Commit);
                    lemma_obj_once_push_other(pre.entries@, e, pre.commitmetas@, objtype, checksum@, ObjectType::CommitMeta);
                    lemma_contains_push(str_views(pre.wrote_dirtree@), checksum@, checksum@);
                    assert(pre.entries@.is_prefix_of(self.entries@)) by {
                        assert(self.entries@.subrange(0, pre.entries@.len() as int) =~= pre.entries@);
                    }
                }
                Ok(())
            },
            ObjectType::DirMeta => {
                if set_contains(&self.wrote_dirmeta, checksum.as_str()) {
                    return Ok(());
                }
                let ghost pre = *self;
                let copy = copy_string(checksum);
                self.wrote_dirmeta.push(copy);
                self.append_default_data(path, raw);
                proof {
                    let e = self.entries@.last();
                    lemma_str_views_push(pre.wrote_dirmeta@, self.wrote_dirmeta@.last());
                    lemma_obj_once_push_new(pre.entries@, e, str_views(pre.wrote_dirmeta@), objtype, checksum@);
                    lemma_obj_once_push_other(pre.entries@, e, str_views(pre.wrote_dirtree@), objtype, checksum@, ObjectType::DirTree);
                    lemma_obj_once_push_other(pre.entries@, e, str_views(pre.wrote_content@), objtype, checksum@, ObjectType::File);
                    lemma_obj_once_push_other(pre.entries@, e, pre.commits@, objtype, checksum@, ObjectType::Commit);
                    lemma_obj_once_push_other(pre.entries@, e, pre.commitmetas@, objtype, checksum@, ObjectType::CommitMeta);
                    lemma_contains_push(str_views(pre.wrote_dirmeta@), checksum@, checksum@);
                    assert(pre.entries@.is_prefix_of(self.entries@)) by {
                        assert(self.entries@.subrange(0, pre.entries@.len() as int) =~= pre.entries@);
                    }
                }
                Ok(())
            },
        }
    }

    /// Write the fixed `sysroot/ostree/repo` scaffolding: every ancestor
    /// directory, the 256 shard subdirectories, temp and ref namespaces, the
    /// format-0-only shared attributes directory, and the repository
    /// configuration file. Idempotent; fails only on an unsupported format
    /// version, after the directories are already out.
    pub fn write_repo_structure(&mut self) -> (r: Result<(), ExportError>)
        requires
            old(self).inv(),
        ensures
            final(self).inv(),
            final(self).options == old(self).options,
            final(self).same_sets(*old(self)),
            extends(old(self).entries@, final(self).entries@),
            r is Ok <==> (old(self).wrote_initdirs || old(self).options.is_supported()),
            r is Ok ==> final(self).wrote_initdirs,
            r is Ok && !old(self).wrote_initdirs ==> final(self).entries@.len() == old(
                self,
            ).entries@.len() + scaffold_len(old(self).options.format_version) && scaffold_at(
                final(self).entries@,
                old(self).entries@.len() as int,
                old(self).options.format_version,
            ),
            r matches Err(e) ==> e == ExportError::UnsupportedFormat(
                old(self).options.format_version,
            ) && !final(self).wrote_initdirs == !old(self).wrote_initdirs,
            old(self).wrote_initdirs ==> *final(self) == *old(self),
    {
        if self.wrote_initdirs {
            return Ok(());
        }
        let ghost w0 = *self;
        proof {
            reveal_strlit("sysroot");
            reveal_strlit("sysroot/ostree");
            reveal_strlit("sysroot/ostree/repo");
            reveal_strlit("sysroot/ostree/repo/objects");
            reveal_strlit("sysroot/ostree/repo/objects/");
        }
        // Every ancestor of the object-storage root, shallowest first.
        self.append_scaffold_dir(String::from_str("sysroot"));
        self.append_scaffold_dir(String::from_str("sysroot/ostree"));
        self.append_scaffold_dir(String::from_str("sysroot/ostree/repo"));
        self.append_scaffold_dir(String::from_str("sysroot/ostree/repo/objects"));
        let ghost anc = self.entries@;
        proof {
            assert(extends(w0.entries@, anc)) by {
                assert(anc.subrange(0, w0.entries@.len() as int) =~= w0.entries@);
            }
            assert(is_scaffold_dir_entry(anc[w0.entries@.len() as int], "sysroot"@));
            assert(is_scaffold_dir_entry(anc[w0.entries@.len() as int + 1], "sysroot/ostree"@));
            assert(is_scaffold_dir_entry(anc[w0.entries@.len() as int + 2], "sysroot/ostree/repo"@));
            assert(is_scaffold_dir_entry(
                anc[w0.entries@.len() as int + 3],
                "sysroot/ostree/repo/objects"@,
            ));
        }
        // The 256 two-hex-digit object shard subdirectories.
        let mut d: usize = 0;
        while d < 256
            invariant
                d <= 256,
                self.inv(),
                self.same_sets(w0),
                self.options == w0.options,
                self.wrote_initdirs == w0.wrote_initdirs,
                self.entries@.len() == anc.len() + d,
                extends(anc, self.entries@),
                extends(w0.entries@, self.entries@),
                forall|dd: int|
                    0 <= dd < d ==> is_scaffold_dir_entry(
                        #[trigger] self.entries@[anc.len() as int + dd],
                        spec_shard_path(dd),
                    ),
            decreases 256 - d,
        {
            let ghost mid = self.entries@;
            let mut p = String::from_str("sysroot/ostree/repo/objects/");
            p.append(hex_digit_str((d / 16) as u8));
            p.append(hex_digit_str((d % 16) as u8));
            proof {
                reveal_strlit("sysroot/ostree/repo/objects/");
                assert((d / 16) as u8 as int == d as int / 16);
                assert((d % 16) as u8 as int == d as int % 16);
                assert(p@ =~= spec_shard_path(d as int));
            }
            self.append_scaffold_dir(p);
            proof {
                lemma_extends_trans(w0.entries@, mid, self.entries@);
                assert(extends(anc, self.entries@)) by {
                    assert(self.entries@.subrange(0, anc.len() as int) =~= anc);
                }
                assert forall|dd: int|
                    0 <= dd < d + 1 implies is_scaffold_dir_entry(
                        #[trigger] self.entries@[anc.len() as int + dd],
                        spec_shard_path(dd),
                    ) by {
                    if dd < d {
                        assert(self.entries@[anc.len() as int + dd] == mid[anc.len() as int + dd]);
                    }
                }
            }
            d = d + 1;
        }
        let ghost shards = self.entries@;
        // Temp and ref namespace subdirectories.
        proof {
            reveal_strlit("sysroot/ostree/repo/tmp");
            reveal_strlit("sysroot/ostree/repo/tmp/cache");
            reveal_strlit("sysroot/ostree/repo/refs");
            reveal_strlit("sysroot/ostree/repo/refs/heads");
            reveal_strlit("sysroot/ostree/repo/refs/mirrors");
            reveal_strlit("sysroot/ostree/repo/refs/remotes");
        }
        self.append_scaffold_dir(String::from_str("sysroot/ostree/repo/tmp"));
        self.append_scaffold_dir(String::from_str("sysroot/ostree/repo/tmp/cache"));
        self.append_scaffold_dir(String::from_str("sysroot/ostree/repo/refs"));
        self.append_scaffold_dir(String::from_str("sysroot/ostree/repo/refs/heads"));
        self.append_scaffold_dir(String::from_str("sysroot/ostree/repo/refs/mirrors"));
        self.append_scaffold_dir(String::from_str("sysroot/ostree/repo/refs/remotes"));
        proof {
            assert(extends(w0.entries@, self.entries@)) by {
                assert(self.entries@.subrange(0, w0.entries@.len() as int) =~= w0.entries@);
            }
        }
        // The shared `repo/xattrs` directory of the format-0 layout.
        if self.options.format_version == 0 {
            proof {
                reveal_strlit("sysroot/ostree/repo/xattrs");
            }
            let ghost mid2 = self.entries@;
            self.append_scaffold_dir(String::from_str("sysroot/ostree/repo/xattrs"));
            proof {
                lemma_extends_trans(w0.entries@, mid2, self.entries@);
            }
        }
        // The repository configuration file, declaring the storage mode.
        let config_path: String = if self.options.format_version == 0 {
            proof {
                reveal_strlit("sysroot/config");
            }
            String::from_str("sysroot/config")
        } else if self.options.format_version == 1 {
            proof {
                reveal_strlit("sysroot/ostree/repo/config");
            }
            String::from_str("sysroot/ostree/repo/config")
        } else {
            return Err(ExportError::UnsupportedFormat(self.options.format_version));
        };
        let ghost mid3 = self.entries@;
        self.append_scaffold_data(config_path, REPO_CONFIG.as_bytes_vec());
        proof {
            lemma_extends_trans(w0.entries@, mid3, self.entries@);
            assert(is_default_data_entry(
                self.entries@[self.entries@.len() - 1],
                spec_config_path(w0.options.format_version),
                REPO_CONFIG.spec_bytes(),
            ));
            // Transfer the scaffold facts onto the final entry list.
            let n0 = w0.entries@.len() as int;
            let fv = w0.options.format_version;
            assert(extends(shards, self.entries@)) by {
                assert(self.entries@.subrange(0, shards.len() as int) =~= shards);
            }
            lemma_extends_index(shards, self.entries@, n0);
            lemma_extends_index(shards, self.entries@, n0 + 1);
            lemma_extends_index(shards, self.entries@, n0 + 2);
            lemma_extends_index(shards, self.entries@, n0 + 3);
            assert forall|dd: int| 0 <= dd < 256 implies is_scaffold_dir_entry(
                #[trigger] self.entries@[n0 + 4 + dd],
                spec_shard_path(dd),
            ) by {
                lemma_extends_index(shards, self.entries@, n0 + 4 + dd);
            }
            assert(self.entries@.len() == n0 + scaffold_len(fv));
            assert(is_scaffold_dir_entry(self.entries@[n0 + 260], "sysroot/ostree/repo/tmp"@));
            assert(is_scaffold_dir_entry(
                self.entries@[n0 + 261],
                "sysroot/ostree/repo/tmp/cache"@,
            ));
            assert(is_scaffold_dir_entry(self.entries@[n0 + 262], "sysroot/ostree/repo/refs"@));
            assert(is_scaffold_dir_entry(
                self.entries@[n0 + 263],
                "sysroot/ostree/repo/refs/heads"@,
            ));
            assert(is_scaffold_dir_entry(
                self.entries@[n0 + 264],
                "sysroot/ostree/repo/refs/mirrors"@,
            ));
            assert(is_scaffold_dir_entry(
                self.entries@[n0 + 265],
                "sysroot/ostree/repo/refs/remotes"@,
            ));
            if fv == 0 {
                assert(is_scaffold_dir_entry(
                    self.entries@[n0 + 266],
                    "sysroot/ostree/repo/xattrs"@,
                ));
            }
        }
        self.wrote_initdirs = true;
        Ok(())
    }

    /// Write a content object once: its attribute objects first, then the
    /// regular-file stream or symlink entry at the canonical object path.
    /// Returns the path and header for the hardlink that mirrors the file at
    /// its logical path.
    pub fn append_content(&mut self, checksum: &String, file: &FileObj) -> (r: Result<
        (String, LinkHeader),
        ExportError,
    >)
        requires
            old(self).inv(),
            old(self).options.is_supported(),
        ensures
            final(self).inv(),
            final(self).same_config(*old(self)),
            final(self).wrote_dirtree == old(self).wrote_dirtree,
            final(self).wrote_dirmeta == old(self).wrote_dirmeta,
            final(self).commits == old(self).commits,
            final(self).commitmetas == old(self).commitmetas,
            extends(old(self).entries@, final(self).entries@),
            set_grows(old(self).wrote_content@, final(self).wrote_content@),
            r is Ok ==> is_checksum(checksum@) && file.meta is Some && file.xattrs is Some,
            r matches Ok(p) ==> p.0@ == spec_object_path(ObjectType::File, checksum@) && p.1.uid
                == file.meta->Some_0.uid as u64 && p.1.gid == file.meta->Some_0.gid as u64
                && p.1.mode == (if old(self).options.format_version == 0 {
                file.meta->Some_0.mode
            } else {
                file.meta->Some_0.mode & 0x0000_0FFF
            }),
            r is Ok ==> str_views(final(self).wrote_content@).contains(checksum@),
            r is Ok && str_views(old(self).wrote_content@).contains(checksum@) ==> *final(self)
                == *old(self),
            r is Ok && !str_views(old(self).wrote_content@).contains(checksum@) ==> {
                &&& str_views(final(self).wrote_content@) == str_views(
                    old(self).wrote_content@,
                ).push(checksum@)
                &&& final(self).entries@.len() > old(self).entries@.len()
                &&& final(self).entries@.last().path@ == spec_object_path(
                    ObjectType::File,
                    checksum@,
                )
                &&& final(self).entries@.last().uid == file.meta->Some_0.uid as u64
                &&& final(self).entries@.last().gid == file.meta->Some_0.gid as u64
                &&& final(self).entries@.last().mode == (if old(self).options.format_version == 0 {
                    file.meta->Some_0.mode
                } else {
                    file.meta->Some_0.mode & 0x0000_0FFF
                })
                &&& (file.content matches Some(d) ==> (final(self).entries@.last().body matches
                EntryBody::Regular(b) && b@ == d@))
                &&& (file.content is None ==> (final(self).entries@.last().body matches
                EntryBody::Symlink { target, literal } && target@ == file.symlink_target->Some_0@
                    && literal == crate::paths::spec_is_denormal(file.symlink_target->Some_0@)))
                &&& (old(self).options.format_version == 0 && file.xattrs->Some_0@.len() == 0
                    ==> final(self).entries@ == old(self).entries@.push(
                    final(self).entries@.last(),
                ))
                &&& (!(old(self).options.format_version == 0 && file.xattrs->Some_0@.len() == 0)
                    ==> ({
                    let blob = file.xattrs->Some_0@;
                    let dg = hex_of(sha256_of(blob));
                    let blob_p = if old(self).options.format_version == 0 {
                        spec_v0_xattrs_path(dg)
                    } else {
                        spec_v1_xattrs_object_path(dg)
                    };
                    let link_p = if old(self).options.format_version == 0 {
                        spec_v0_xattrs_object_path(checksum@)
                    } else {
                        spec_v1_xattrs_link_object_path(checksum@)
                    };
                    &&& final(self).entries@.len() >= old(self).entries@.len() + 2
                    &&& is_default_hardlink_entry(
                        final(self).entries@[final(self).entries@.len() - 2],
                        link_p,
                        blob_p,
                    )
                    &&& (!str_views(old(self).wrote_xattrs@).contains(dg)
                        ==> final(self).entries@.len() == old(self).entries@.len() + 3
                        && is_default_data_entry(
                        final(self).entries@[old(self).entries@.len() as int],
                        blob_p,
                        blob,
                    ))
                    &&& (str_views(old(self).wrote_xattrs@).contains(dg)
                        ==> final(self).entries@.len() == old(self).entries@.len() + 2)
                }))
            },
            r is Err ==> *final(self) == *old(self),
            (r matches Err(e) && e == ExportError::InvalidChecksum) <==> !is_checksum(checksum@),
            (r matches Err(e) && e == ExportError::MissingMetadata) <==> is_checksum(checksum@)
                && file.meta is None,
            (r matches Err(e) && e == ExportError::MissingXattrs) <==> is_checksum(checksum@)
                && file.meta is Some && file.xattrs is None,
            (r matches Err(e) && e == ExportError::WrongFileType) <==> (is_checksum(checksum@)
                && file.meta is Some && file.xattrs is Some && !str_views(
                old(self).wrote_content@,
            ).contains(checksum@) && ((file.content is Some && !(file.meta->Some_0.kind
                is Regular)) || (file.content is None && !(file.meta->Some_0.kind is Symlink)))),
            (r matches Err(e) && e == ExportError::MissingSymlinkTarget) <==> (is_checksum(
                checksum@,
            ) && file.meta is Some && file.xattrs is Some && !str_views(
                old(self).wrote_content@,
            ).contains(checksum@) && file.content is None && file.meta->Some_0.kind is Symlink
                && file.symlink_target is None),
            (r matches Err(e) && e == ExportError::Digest) ==> is_checksum(checksum@)
                && file_obj_wf(*file) && !str_views(old(self).wrote_content@).contains(checksum@),
            is_checksum(checksum@) && file_obj_wf(*file) && str_views(
                old(self).wrote_content@,
            ).contains(checksum@) ==> r is Ok,
            is_checksum(checksum@) && file_obj_wf(*file) ==> (r is Ok || r matches Err(
                ExportError::Digest,
            )),
            is_checksum(checksum@) && file_obj_wf(*file) && old(self).options.format_version == 0
                && file.xattrs->Some_0@.len() == 0 ==> r is Ok,
    {
        if !crate::paths::validate_checksum(checksum.as_str()) {
            return Err(ExportError::InvalidChecksum);
        }
        let path = crate::paths::object_path(ObjectType::File, checksum.as_str());
        let meta = match &file.meta {
            Some(m) => m,
            None => {
                return Err(ExportError::MissingMetadata);
            },
        };
        let xattrs = match &file.xattrs {
            Some(x) => x,
            None => {
                return Err(ExportError::MissingXattrs);
            },
        };
        let header = LinkHeader {
            uid: meta.uid as u64,
            gid: meta.gid as u64,
            mode: self.filter_mode(meta.mode),
        };
        if set_contains(&self.wrote_content, checksum.as_str()) {
            return Ok((path, header));
        }
        // Build the content entry first, so no failure can follow a write.
        let entry: TarEntry = match &file.content {
            Some(data) => {
                match meta.kind {
                    FileKind::Regular => {},
                    _ => {
                        return Err(ExportError::WrongFileType);
                    },
                }
                TarEntry {
                    path: copy_string(&path),
                    uid: header.uid,
                    gid: header.gid,
                    mode: header.mode,
                    body: EntryBody::Regular(copy_bytes(data)),
                }
            },
            None => {
                match meta.kind {
                    FileKind::Symlink => {},
                    _ => {
                        return Err(ExportError::WrongFileType);
                    },
                }
                let target = match &file.symlink_target {
                    Some(t) => t,
                    None => {
                        return Err(ExportError::MissingSymlinkTarget);
                    },
                };
                // A denormal target keeps its exact spelling.
                let literal = crate::paths::symlink_is_denormal(target.as_str());
                TarEntry {
                    path: copy_string(&path),
                    uid: header.uid,
                    gid: header.gid,
                    mode: header.mode,
                    body: EntryBody::Symlink { target: copy_string(target), literal },
                }
            },
        };
        // Attribute objects go out before the content they belong to; the
        // reconstruction stage resolves them first.
        let ghost pre0 = *self;
        match self.append_xattrs(checksum, xattrs) {
            Ok(_) => {},
            Err(e) => {
                return Err(e);
            },
        }
        let ghost pre = *self;
        self.wrote_content.push(copy_string(checksum));
        self.entries.push(entry);
        proof {
            let e = self.entries@.last();
            lemma_str_views_push(pre.wrote_content@, self.wrote_content@.last());
            lemma_obj_once_push_new(
                pre.entries@,
                e,
                str_views(pre.wrote_content@),
                ObjectType::File,
                checksum@,
            );
            lemma_obj_once_push_other(
                pre.entries@,
                e,
                str_views(pre.wrote_dirtree@),
                ObjectType::File,
                checksum@,
                ObjectType::DirTree,
            );
            lemma_obj_once_push_other(
                pre.entries@,
                e,
                str_views(pre.wrote_dirmeta@),
                ObjectType::File,
                checksum@,
                ObjectType::DirMeta,
            );
            lemma_obj_once_push_other(
                pre.entries@,
                e,
                pre.commits@,
                ObjectType::File,
                checksum@,
                ObjectType::Commit,
            );
            lemma_obj_once_push_other(
                pre.entries@,
                e,
                pre.commitmetas@,
                ObjectType::File,
                checksum@,
                ObjectType::CommitMeta,
            );
            lemma_contains_push(str_views(pre.wrote_content@), checksum@, checksum@);
            assert(pre.entries@.is_prefix_of(self.entries@)) by {
                assert(self.entries@.subrange(0, pre.entries@.len() as int) =~= pre.entries@);
            }
            lemma_extends_trans(pre0.entries@, pre.entries@, self.entries@);
        }
        Ok((path, header))
    }

    /// Write a directory-tree object and recursively everything it
    /// references: each file's content object once plus a hardlink at its
    /// logical path, each subdirectory's metadata object once, a directory
    /// entry, and its own tree. At the root level a child named like the
    /// scaffolding root is skipped; the scaffolding already owns that name.
    #[verifier::loop_isolation(false)]
    pub fn append_dirtree(&mut self, dirpath: &String, tree: &DirTreeObj, is_root: bool) -> (r:
        Result<(), ExportError>)
        requires
            old(self).inv(),
            old(self).options.is_supported(),
            dirpath@.len() > 0,
            dirpath@[0] == '.',
        ensures
            final(self).inv(),
            final(self).same_config(*old(self)),
            final(self).commits == old(self).commits,
            final(self).commitmetas == old(self).commitmetas,
            extends(old(self).entries@, final(self).entries@),
            set_grows(old(self).wrote_dirtree@, final(self).wrote_dirtree@),
            set_grows(old(self).wrote_dirmeta@, final(self).wrote_dirmeta@),
            set_grows(old(self).wrote_content@, final(self).wrote_content@),
            r is Ok ==> is_checksum(tree.checksum@) && str_views(
                final(self).wrote_dirtree@,
            ).contains(tree.checksum@),
            r is Ok ==> (str_views(old(self).wrote_dirtree@).contains(tree.checksum@) || (
            exists|j: int|
                0 <= j < final(self).entries@.len() && is_object_entry(
                    #[trigger] final(self).entries@[j],
                    ObjectType::DirTree,
                    tree.checksum@,
                    tree.raw@,
                ))),
            r is Ok ==> tree_emitted(
                final(self).entries@,
                str_views(final(self).wrote_dirtree@),
                str_views(final(self).wrote_dirmeta@),
                str_views(final(self).wrote_content@),
                old(self).options.format_version,
                dirpath@,
                *tree,
                is_root,
            ),
            r is Ok ==> (forall|c: Seq<char>|
                str_views(final(self).wrote_dirtree@).contains(c) ==> str_views(
                    old(self).wrote_dirtree@,
                ).contains(c) || walk_visits_dirtree(c, *tree, is_root)),
            r is Ok ==> (forall|p: Seq<char>|
                !walk_may_write_dir(p, dirpath@, *tree, is_root)
                    ==> #[trigger] count_dir_matching(final(self).entries@, p)
                    == count_dir_matching(old(self).entries@, p)),
            tree_wf(*tree) ==> (r is Ok || r matches Err(ExportError::Digest)),
        decreases *tree,
    {
        let raw = copy_bytes(&tree.raw);
        let ghost contained0 = str_views(old(self).wrote_dirtree@).contains(tree.checksum@);
        match self.append(ObjectType::DirTree, &tree.checksum, raw) {
            Ok(_) => {},
            Err(e) => {
                return Err(e);
            },
        }
        let ghost w0 = *self;
        let ghost oi: int = w0.entries@.len() - 1;
        proof {
            assert forall|idx: int|
                old(self).entries@.len() <= idx < w0.entries@.len() implies !((
            #[trigger] w0.entries@[idx]).body is Dir) by {}
            assert forall|p: Seq<char>| #[trigger] count_dir_matching(w0.entries@, p)
                == count_dir_matching(old(self).entries@, p) by {
                lemma_count_dir_no_new(old(self).entries@, w0.entries@, p);
            }
        }
        let mut i: usize = 0;
        while i < tree.files.len()
            invariant
                i <= tree.files@.len(),
                self.inv(),
                self.same_config(w0),
                self.commits == w0.commits,
                self.commitmetas == w0.commitmetas,
                extends(w0.entries@, self.entries@),
                self.wrote_dirtree == w0.wrote_dirtree,
                set_grows(w0.wrote_dirtree@, self.wrote_dirtree@),
                set_grows(w0.wrote_dirmeta@, self.wrote_dirmeta@),
                set_grows(w0.wrote_content@, self.wrote_content@),
                forall|p: Seq<char>| #[trigger] count_dir_matching(self.entries@, p)
                    == count_dir_matching(w0.entries@, p),
                forall|k: int|
                    0 <= k < i ==> file_node_emitted(
                        self.entries@,
                        str_views(self.wrote_content@),
                        w0.options.format_version,
                        dirpath@,
                        #[trigger] tree.files@[k],
                    ),
            decreases tree.files@.len() - i,
        {
            let f = &tree.files[i];
            let ghost mid = *self;
            let content = self.append_content(&f.checksum, &f.file);
            let (objpath, header) = match content {
                Ok(p) => p,
                Err(e) => {
                    proof {
                        lemma_extends_trans(w0.entries@, mid.entries@, self.entries@);
                        lemma_extends_trans(old(self).entries@, w0.entries@, self.entries@);
                        if tree_wf(*tree) {
                            assert(is_checksum(tree.files@[i as int].checksum@) && file_obj_wf(
                                tree.files@[i as int].file,
                            ));
                        }
                    }
                    return Err(e);
                },
            };
            let joined = join_path(dirpath, &f.name);
            let mapped = crate::paths::map_path(joined.as_str());
            proof {
                lemma_map_path_dot(joined@);
            }
            let ghost mid2 = *self;
            self.append_tree_hardlink(mapped, objpath, header);
            proof {
                lemma_extends_trans(w0.entries@, mid.entries@, mid2.entries@);
                lemma_extends_trans(w0.entries@, mid2.entries@, self.entries@);
                lemma_extends_trans(mid.entries@, mid2.entries@, self.entries@);
                assert forall|idx: int|
                    mid.entries@.len() <= idx < self.entries@.len() implies !((
                #[trigger] self.entries@[idx]).body is Dir) by {
                    if idx < mid2.entries@.len() {
                        assert(self.entries@[idx] == mid2.entries@[idx]);
                    }
                }
                assert forall|p: Seq<char>| #[trigger] count_dir_matching(self.entries@, p)
                    == count_dir_matching(mid.entries@, p) by {
                    lemma_count_dir_no_new(mid.entries@, self.entries@, p);
                }
                let fvv = w0.options.format_version;
                assert(is_tree_link_entry(
                    self.entries@.last(),
                    crate::paths::spec_map_path(spec_join_path(dirpath@, f.name@)),
                    f.checksum@,
                    f.file.meta->Some_0,
                    fvv,
                ));
                assert forall|k: int| 0 <= k < i + 1 implies file_node_emitted(
                    self.entries@,
                    str_views(self.wrote_content@),
                    fvv,
                    dirpath@,
                    #[trigger] tree.files@[k],
                ) by {
                    if k < i {
                        lemma_file_node_emitted_grows(
                            mid.entries@,
                            self.entries@,
                            mid.wrote_content@,
                            self.wrote_content@,
                            fvv,
                            dirpath@,
                            tree.files@[k],
                        );
                    } else {
                        assert(str_views(self.wrote_content@).contains(f.checksum@));
                        assert(self.entries@[self.entries@.len() - 1] == self.entries@.last());
                        // The content object already stands in the list; the
                        // hardlink just pushed points back at it.
                        assert(count_matching(
                            mid2.entries@,
                            spec_object_path(ObjectType::File, f.checksum@),
                        ) == 1);
                        lemma_count_pos_exists(
                            mid2.entries@,
                            spec_object_path(ObjectType::File, f.checksum@),
                        );
                        let io = choose|io: int|
                            0 <= io < mid2.entries@.len() && (#[trigger] mid2.entries@[io]).path@
                                == spec_object_path(ObjectType::File, f.checksum@);
                        lemma_extends_index(mid2.entries@, self.entries@, io);
                    }
                }
            }
            i = i + 1;
        }
        let mut j: usize = 0;
        while j < tree.dirs.len()
            invariant
                j <= tree.dirs@.len(),
                self.inv(),
                self.same_config(w0),
                self.commits == w0.commits,
                self.commitmetas == w0.commitmetas,
                extends(w0.entries@, self.entries@),
                set_grows(w0.wrote_dirtree@, self.wrote_dirtree@),
                set_grows(w0.wrote_dirmeta@, self.wrote_dirmeta@),
                set_grows(w0.wrote_content@, self.wrote_content@),
                forall|k: int|
                    0 <= k < tree.files@.len() ==> file_node_emitted(
                        self.entries@,
                        str_views(self.wrote_content@),
                        w0.options.format_version,
                        dirpath@,
                        #[trigger] tree.files@[k],
                    ),
                forall|k: int|
                    0 <= k < j ==> str_views(self.wrote_dirmeta@).contains(
                        (#[trigger] tree.dirs@[k]).meta_checksum@,
                    ),
                forall|k: int|
                    0 <= k < j && !(is_root && (#[trigger] tree.dirs@[k]).name@ == "sysroot"@)
                        ==> dir_node_entry_emitted(
                        self.entries@,
                        w0.options.format_version,
                        spec_child_path(dirpath@, tree.dirs@[k].name@),
                        tree.dirs@[k],
                    ),
                forall|k: int|
                    0 <= k < j && !(is_root && (#[trigger] tree.dirs@[k]).name@ == "sysroot"@)
                        ==> tree_emitted(
                        self.entries@,
                        str_views(self.wrote_dirtree@),
                        str_views(self.wrote_dirmeta@),
                        str_views(self.wrote_content@),
                        w0.options.format_version,
                        spec_child_path(dirpath@, tree.dirs@[k].name@),
                        tree.dirs@[k].tree,
                        false,
                    ),
                forall|c: Seq<char>|
                    str_views(self.wrote_dirtree@).contains(c) ==> str_views(
                        w0.wrote_dirtree@,
                    ).contains(c) || (exists|k: int|
                        0 <= k < j && !(is_root && (#[trigger] tree.dirs@[k]).name@
                            == "sysroot"@) && walk_visits_dirtree(c, tree.dirs@[k].tree, false)),
                forall|p: Seq<char>|
                    !walk_may_write_dir(p, dirpath@, *tree, is_root)
                        ==> #[trigger] count_dir_matching(self.entries@, p)
                        == count_dir_matching(w0.entries@, p),
            decreases tree.dirs@.len() - j,
        {
            let d = &tree.dirs[j];
            let meta_raw = copy_bytes(&d.meta.raw);
            let ghost mid = *self;
            match self.append(ObjectType::DirMeta, &d.meta_checksum, meta_raw) {
                Ok(_) => {},
                Err(e) => {
                    proof {
                        lemma_extends_trans(w0.entries@, mid.entries@, self.entries@);
                        lemma_extends_trans(old(self).entries@, w0.entries@, self.entries@);
                        if tree_wf(*tree) {
                            assert(is_checksum(tree.dirs@[j as int].meta_checksum@));
                        }
                    }
                    return Err(e);
                },
            }
            proof {
                lemma_extends_trans(w0.entries@, mid.entries@, self.entries@);
            }
            let ghost postm = *self;
            // At the root, the scaffolding owns this name; a duplicate path
            // would break the archive.
            let skip = is_root && str_equal(d.name.as_str(), "sysroot");
            if !skip {
                let joined = join_path(dirpath, &d.name);
                let mapped = crate::paths::map_path(joined.as_str());
                proof {
                    lemma_map_path_dot(joined@);
                }
                let mapped_copy = copy_string(&mapped);
                let ghost mid2 = *self;
                self.append_dir(mapped, &d.meta);
                proof {
                    lemma_extends_trans(w0.entries@, mid2.entries@, self.entries@);
                }
                let ghost mid3 = *self;
                proof {
                    assert(decreases_to!(*tree => tree.dirs@[j as int].tree));
                    assert(is_dir_entry(
                        mid3.entries@.last(),
                        spec_child_path(dirpath@, d.name@),
                        d.meta.uid,
                        d.meta.gid,
                        (if w0.options.format_version == 0 {
                            d.meta.mode
                        } else {
                            d.meta.mode & 0x0000_0FFF
                        }),
                    ));
                }
                match self.append_dirtree(&mapped_copy, &d.tree, false) {
                    Ok(_) => {},
                    Err(e) => {
                        proof {
                            lemma_extends_trans(w0.entries@, mid3.entries@, self.entries@);
                            lemma_extends_trans(old(self).entries@, w0.entries@, self.entries@);
                            if tree_wf(*tree) {
                                assert(tree_wf(tree.dirs@[j as int].tree));
                            }
                        }
                        return Err(e);
                    },
                }
                proof {
                    lemma_extends_trans(w0.entries@, mid3.entries@, self.entries@);
                    lemma_extends_trans(mid.entries@, mid2.entries@, mid3.entries@);
                    lemma_extends_trans(mid.entries@, mid3.entries@, self.entries@);
                    // This child's directory entry, written just before the
                    // recursion, still stands.
                    lemma_extends_index(mid3.entries@, self.entries@, mid3.entries@.len() - 1);
                    // Its metadata object was already in the list when the
                    // directory entry went out.
                    assert(count_matching(
                        postm.entries@,
                        spec_object_path(ObjectType::DirMeta, d.meta_checksum@),
                    ) == 1);
                    lemma_count_pos_exists(
                        postm.entries@,
                        spec_object_path(ObjectType::DirMeta, d.meta_checksum@),
                    );
                    let im = choose|im: int|
                        0 <= im < postm.entries@.len() && (#[trigger] postm.entries@[im]).path@
                            == spec_object_path(ObjectType::DirMeta, d.meta_checksum@);
                    lemma_extends_index(postm.entries@, mid3.entries@, im);
                    lemma_extends_index(mid3.entries@, self.entries@, im);
                    assert(dir_node_entry_emitted(
                        self.entries@,
                        w0.options.format_version,
                        spec_child_path(dirpath@, d.name@),
                        *d,
                    ));
                    // The only directory entry this step appends stands at
                    // the child's mapped path.
                    assert forall|p: Seq<char>|
                        !walk_may_write_dir(p, dirpath@, *tree, is_root) implies #[trigger]
                    count_dir_matching(self.entries@, p) == count_dir_matching(
                        mid.entries@,
                        p,
                    ) by {
                        assert forall|idx: int|
                            mid.entries@.len() <= idx < postm.entries@.len() implies !((
                        #[trigger] postm.entries@[idx]).body is Dir) by {}
                        lemma_count_dir_no_new(mid.entries@, postm.entries@, p);
                        assert(p != spec_child_path(dirpath@, d.name@)) by {
                            if p == spec_child_path(dirpath@, d.name@) {
                                assert(0 <= j < tree.dirs@.len() && !(is_root
                                    && (tree.dirs@[j as int]).name@ == "sysroot"@) && p
                                    == spec_child_path(dirpath@, tree.dirs@[j as int].name@));
                                assert(walk_may_write_dir(p, dirpath@, *tree, is_root));
                            }
                        }
                        assert forall|idx: int|
                            postm.entries@.len() <= idx < mid3.entries@.len() implies !((
                        #[trigger] mid3.entries@[idx]).body is Dir && mid3.entries@[idx].path@
                            == p) by {}
                        lemma_count_dir_no_new(postm.entries@, mid3.entries@, p);
                        assert(!walk_may_write_dir(
                            p,
                            spec_child_path(dirpath@, d.name@),
                            d.tree,
                            false,
                        )) by {
                            if walk_may_write_dir(
                                p,
                                spec_child_path(dirpath@, d.name@),
                                d.tree,
                                false,
                            ) {
                                assert(0 <= j < tree.dirs@.len() && !(is_root
                                    && (tree.dirs@[j as int]).name@ == "sysroot"@)
                                    && walk_may_write_dir(
                                    p,
                                    spec_child_path(dirpath@, tree.dirs@[j as int].name@),
                                    tree.dirs@[j as int].tree,
                                    false,
                                ));
                                assert(walk_may_write_dir(p, dirpath@, *tree, is_root));
                            }
                        }
                        assert(count_dir_matching(self.entries@, p) == count_dir_matching(
                            mid3.entries@,
                            p,
                        ));
                    }
                }
            } else {
                proof {
                    assert forall|idx: int|
                        mid.entries@.len() <= idx < self.entries@.len() implies !((
                    #[trigger] self.entries@[idx]).body is Dir) by {}
                    assert forall|p: Seq<char>| #[trigger] count_dir_matching(self.entries@, p)
                        == count_dir_matching(mid.entries@, p) by {
                        lemma_count_dir_no_new(mid.entries@, self.entries@, p);
                    }
                }
            }
            proof {
                let fvv = w0.options.format_version;
                assert(extends(mid.entries@, self.entries@));
                assert forall|p: Seq<char>|
                    !walk_may_write_dir(p, dirpath@, *tree, is_root) implies #[trigger]
                count_dir_matching(self.entries@, p) == count_dir_matching(w0.entries@, p) by {}
                assert(set_grows(postm.wrote_dirtree@, self.wrote_dirtree@));
                assert(set_grows(postm.wrote_dirmeta@, self.wrote_dirmeta@));
                assert(set_grows(postm.wrote_content@, self.wrote_content@));
                lemma_set_grows_trans(
                    mid.wrote_dirtree@,
                    postm.wrote_dirtree@,
                    self.wrote_dirtree@,
                );
                lemma_set_grows_trans(
                    mid.wrote_dirmeta@,
                    postm.wrote_dirmeta@,
                    self.wrote_dirmeta@,
                );
                lemma_set_grows_trans(
                    mid.wrote_content@,
                    postm.wrote_content@,
                    self.wrote_content@,
                );
                lemma_grows_contains(postm.wrote_dirmeta@, self.wrote_dirmeta@, d.meta_checksum@);
                assert forall|k: int| 0 <= k < tree.files@.len() implies file_node_emitted(
                    self.entries@,
                    str_views(self.wrote_content@),
                    fvv,
                    dirpath@,
                    #[trigger] tree.files@[k],
                ) by {
                    lemma_file_node_emitted_grows(
                        mid.entries@,
                        self.entries@,
                        mid.wrote_content@,
                        self.wrote_content@,
                        fvv,
                        dirpath@,
                        tree.files@[k],
                    );
                }
                assert forall|k: int| 0 <= k < j + 1 implies str_views(
                    self.wrote_dirmeta@,
                ).contains((#[trigger] tree.dirs@[k]).meta_checksum@) by {
                    if k < j {
                        lemma_grows_contains(
                            mid.wrote_dirmeta@,
                            self.wrote_dirmeta@,
                            tree.dirs@[k].meta_checksum@,
                        );
                    }
                }
                assert forall|k: int|
                    0 <= k < j + 1 && !(is_root && (#[trigger] tree.dirs@[k]).name@
                        == "sysroot"@) implies dir_node_entry_emitted(
                    self.entries@,
                    fvv,
                    spec_child_path(dirpath@, tree.dirs@[k].name@),
                    tree.dirs@[k],
                ) by {
                    if k < j {
                        lemma_dir_node_entry_grows(
                            mid.entries@,
                            self.entries@,
                            fvv,
                            spec_child_path(dirpath@, tree.dirs@[k].name@),
                            tree.dirs@[k],
                        );
                    }
                }
                assert forall|c: Seq<char>|
                    str_views(self.wrote_dirtree@).contains(c) implies str_views(
                    w0.wrote_dirtree@,
                ).contains(c) || (exists|k: int|
                    0 <= k < j + 1 && !(is_root && (#[trigger] tree.dirs@[k]).name@
                        == "sysroot"@) && walk_visits_dirtree(c, tree.dirs@[k].tree, false)) by {
                    if str_views(mid.wrote_dirtree@).contains(c) {
                        assert(str_views(w0.wrote_dirtree@).contains(c) || (exists|k: int|
                            0 <= k < j && !(is_root && (#[trigger] tree.dirs@[k]).name@
                                == "sysroot"@) && walk_visits_dirtree(
                                c,
                                tree.dirs@[k].tree,
                                false,
                            )));
                    } else {
                        assert(walk_visits_dirtree(c, tree.dirs@[j as int].tree, false));
                    }
                }
                assert forall|k: int|
                    0 <= k < j + 1 && !(is_root && (#[trigger] tree.dirs@[k]).name@
                        == "sysroot"@) implies tree_emitted(
                    self.entries@,
                    str_views(self.wrote_dirtree@),
                    str_views(self.wrote_dirmeta@),
                    str_views(self.wrote_content@),
                    fvv,
                    spec_child_path(dirpath@, tree.dirs@[k].name@),
                    tree.dirs@[k].tree,
                    false,
                ) by {
                    if k < j {
                        lemma_tree_emitted_grows(
                            mid.entries@,
                            self.entries@,
                            mid.wrote_dirtree@,
                            self.wrote_dirtree@,
                            mid.wrote_dirmeta@,
                            self.wrote_dirmeta@,
                            mid.wrote_content@,
                            self.wrote_content@,
                            fvv,
                            spec_child_path(dirpath@, tree.dirs@[k].name@),
                            tree.dirs@[k].tree,
                            false,
                        );
                    }
                }
            }
            j = j + 1;
        }
        proof {
            lemma_extends_trans(old(self).entries@, w0.entries@, self.entries@);
            lemma_grows_contains(w0.wrote_dirtree@, self.wrote_dirtree@, tree.checksum@);
            if !contained0 {
                lemma_extends_index(w0.entries@, self.entries@, oi);
            }
            assert forall|c: Seq<char>|
                str_views(self.wrote_dirtree@).contains(c) implies str_views(
                old(self).wrote_dirtree@,
            ).contains(c) || walk_visits_dirtree(c, *tree, is_root) by {
                if str_views(w0.wrote_dirtree@).contains(c) && !contained0 {
                    lemma_contains_push(str_views(old(self).wrote_dirtree@), tree.checksum@, c);
                }
            }
            assert forall|p: Seq<char>|
                !walk_may_write_dir(p, dirpath@, *tree, is_root) implies #[trigger]
            count_dir_matching(self.entries@, p) == count_dir_matching(
                old(self).entries@,
                p,
            ) by {}
        }
        Ok(())
    }

    /// Serialize a commit: the root directory entry first, then the
    /// scaffolding, the commit object, its optional detached metadata block,
    /// the root directory metadata, and recursively the whole tree.
    pub fn write_commit(&mut self, src: &CommitSource) -> (r: Result<(), ExportError>)
        requires
            old(self).inv(),
            old(self).entries@.len() == 0,
            !old(self).wrote_initdirs,
            old(self).commits@.len() == 0,
            old(self).commitmetas@.len() == 0,
            old(self).wrote_dirtree@.len() == 0,
            old(self).wrote_dirmeta@.len() == 0,
            old(self).wrote_content@.len() == 0,
            old(self).wrote_xattrs@.len() == 0,
        ensures
            final(self).inv(),
            final(self).options == old(self).options,
            final(self).entries@.len() > 0,
            is_dir_entry(
                final(self).entries@[0],
                "./"@,
                src.root_meta.uid,
                src.root_meta.gid,
                (if old(self).options.format_version == 0 {
                    src.root_meta.mode
                } else {
                    src.root_meta.mode & 0x0000_0FFF
                }),
            ),
            r is Ok ==> is_checksum(src.checksum@),
            r is Ok ==> final(self).commits@ =~= seq![src.checksum@],
            r is Ok && src.detached_meta is Some ==> final(self).commitmetas@ =~= seq![
                src.checksum@,
            ],
            r is Ok && src.detached_meta is None ==> final(self).commitmetas@.len() == 0,
            r is Ok ==> exists|k: int|
                0 <= k < final(self).entries@.len() && is_object_entry(
                    #[trigger] final(self).entries@[k],
                    ObjectType::Commit,
                    src.checksum@,
                    src.raw@,
                ),
            r is Ok ==> is_checksum(src.root.checksum@) && str_views(
                final(self).wrote_dirtree@,
            ).contains(src.root.checksum@),
            r is Ok ==> is_checksum(src.root_meta_checksum@) && str_views(
                final(self).wrote_dirmeta@,
            ).contains(src.root_meta_checksum@),
            r is Ok && src.detached_meta is Some ==> exists|k: int|
                0 <= k < final(self).entries@.len() && is_object_entry(
                    #[trigger] final(self).entries@[k],
                    ObjectType::CommitMeta,
                    src.checksum@,
                    src.detached_meta->Some_0@,
                ),
            r is Ok ==> final(self).entries@.len() > (if src.detached_meta is Some {
                3int
            } else {
                2int
            }) + scaffold_len(old(self).options.format_version) && is_object_entry(
                final(self).entries@[1 + scaffold_len(old(self).options.format_version)],
                ObjectType::Commit,
                src.checksum@,
                src.raw@,
            ),
            r is Ok && src.detached_meta is Some ==> is_object_entry(
                final(self).entries@[2 + scaffold_len(old(self).options.format_version)],
                ObjectType::CommitMeta,
                src.checksum@,
                src.detached_meta->Some_0@,
            ),
            r is Ok ==> is_object_entry(
                final(self).entries@[(if src.detached_meta is Some {
                    3int
                } else {
                    2int
                }) + scaffold_len(old(self).options.format_version)],
                ObjectType::DirMeta,
                src.root_meta_checksum@,
                src.root_meta.raw@,
            ),
            r is Ok ==> exists|k: int|
                0 <= k < final(self).entries@.len() && is_object_entry(
                    #[trigger] final(self).entries@[k],
                    ObjectType::DirMeta,
                    src.root_meta_checksum@,
                    src.root_meta.raw@,
                ),
            r is Ok ==> exists|k: int|
                0 <= k < final(self).entries@.len() && is_object_entry(
                    #[trigger] final(self).entries@[k],
                    ObjectType::DirTree,
                    src.root.checksum@,
                    src.root.raw@,
                ),
            r is Ok ==> exists|k: int|
                0 <= k < final(self).entries@.len() && is_default_data_entry(
                    #[trigger] final(self).entries@[k],
                    spec_config_path(old(self).options.format_version),
                    REPO_CONFIG.spec_bytes(),
                ),
            r is Ok ==> scaffold_at(final(self).entries@, 1, old(self).options.format_version),
            r is Ok ==> tree_emitted(
                final(self).entries@,
                str_views(final(self).wrote_dirtree@),
                str_views(final(self).wrote_dirmeta@),
                str_views(final(self).wrote_content@),
                old(self).options.format_version,
                "./"@,
                src.root,
                true,
            ),
            r is Ok ==> (forall|c: Seq<char>|
                str_views(final(self).wrote_dirtree@).contains(c) ==> walk_visits_dirtree(
                    c,
                    src.root,
                    true,
                )),
            r is Ok ==> (forall|p: Seq<char>|
                !walk_may_write_dir(p, "./"@, src.root, true) && p != "./"@ && (p.len() == 0
                    || p[0] != 's') ==> #[trigger] count_dir_matching(final(self).entries@, p)
                    == 0),
            !old(self).options.is_supported() ==> (r matches Err(e) && e
                == ExportError::UnsupportedFormat(old(self).options.format_version)),
            old(self).options.is_supported() && commit_source_wf(*src) ==> (r is Ok
                || r matches Err(ExportError::Digest)),
            (r matches Err(e) && (e == ExportError::InvalidChecksum || e
                == ExportError::MissingMetadata || e == ExportError::MissingXattrs || e
                == ExportError::MissingSymlinkTarget || e == ExportError::WrongFileType))
                ==> !commit_source_wf(*src),
    {
        proof {
            reveal_strlit("./");
        }
        let rootpath = String::from_str("./");
        // The synthetic filesystem root must exist before anything nested
        // under it.
        self.append_dir(rootpath, &src.root_meta);
        let ghost s1 = *self;
        match self.write_repo_structure() {
            Ok(_) => {},
            Err(e) => {
                proof {
                    lemma_extends_index(s1.entries@, self.entries@, 0);
                }
                return Err(e);
            },
        }
        proof {
            lemma_extends_index(s1.entries@, self.entries@, 0);
        }
        let ghost cfgi: int = scaffold_len(old(self).options.format_version);
        proof {
            assert(scaffold_at(self.entries@, 1, old(self).options.format_version));
            assert(is_default_data_entry(
                self.entries@[cfgi],
                spec_config_path(old(self).options.format_version),
                REPO_CONFIG.spec_bytes(),
            ));
        }
        let ghost s2 = *self;
        let commit_raw = copy_bytes(&src.raw);
        match self.append(ObjectType::Commit, &src.checksum, commit_raw) {
            Ok(_) => {},
            Err(e) => {
                proof {
                    lemma_extends_index(s2.entries@, self.entries@, 0);
                }
                return Err(e);
            },
        }
        let ghost ci = self.entries@.len() - 1;
        proof {
            assert(ci == 1 + scaffold_len(old(self).options.format_version));
            lemma_extends_index(s2.entries@, self.entries@, 0);
            lemma_extends_index(s2.entries@, self.entries@, cfgi);
            lemma_scaffold_at_extends(
                s2.entries@,
                self.entries@,
                1,
                old(self).options.format_version,
            );
        }
        let ghost s3 = *self;
        let ghost mut cmi: int = 0;
        match &src.detached_meta {
            Some(cm) => {
                let cm_raw = copy_bytes(cm);
                match self.append(ObjectType::CommitMeta, &src.checksum, cm_raw) {
                    Ok(_) => {},
                    Err(e) => {
                        proof {
                            lemma_extends_index(s3.entries@, self.entries@, 0);
                            lemma_extends_index(s3.entries@, self.entries@, ci);
                        }
                        return Err(e);
                    },
                }
                proof {
                    cmi = self.entries@.len() - 1;
                    assert(cmi == 2 + scaffold_len(old(self).options.format_version));
                }
            },
            None => {},
        }
        proof {
            lemma_extends_index(s3.entries@, self.entries@, 0);
            lemma_extends_index(s3.entries@, self.entries@, ci);
            lemma_extends_index(s3.entries@, self.entries@, cfgi);
            lemma_scaffold_at_extends(
                s3.entries@,
                self.entries@,
                1,
                old(self).options.format_version,
            );
        }
        let ghost s4 = *self;
        let root_meta_raw = copy_bytes(&src.root_meta.raw);
        match self.append(ObjectType::DirMeta, &src.root_meta_checksum, root_meta_raw) {
            Ok(_) => {},
            Err(e) => {
                proof {
                    lemma_extends_index(s4.entries@, self.entries@, 0);
                    lemma_extends_index(s4.entries@, self.entries@, ci);
                }
                return Err(e);
            },
        }
        proof {
            lemma_extends_index(s4.entries@, self.entries@, 0);
            lemma_extends_index(s4.entries@, self.entries@, ci);
            lemma_extends_index(s4.entries@, self.entries@, cfgi);
            if src.detached_meta is Some {
                lemma_extends_index(s4.entries@, self.entries@, cmi);
            }
            lemma_scaffold_at_extends(
                s4.entries@,
                self.entries@,
                1,
                old(self).options.format_version,
            );
        }
        let ghost dmi: int = self.entries@.len() - 1;
        proof {
            assert(dmi == (if src.detached_meta is Some {
                3int
            } else {
                2int
            }) + scaffold_len(old(self).options.format_version));
        }
        let ghost s5 = *self;
        let rootpath2 = String::from_str("./");
        match self.append_dirtree(&rootpath2, &src.root, true) {
            Ok(_) => {},
            Err(e) => {
                proof {
                    lemma_extends_index(s5.entries@, self.entries@, 0);
                    lemma_extends_index(s5.entries@, self.entries@, ci);
                }
                return Err(e);
            },
        }
        proof {
            lemma_extends_index(s5.entries@, self.entries@, 0);
            lemma_extends_index(s5.entries@, self.entries@, ci);
            lemma_extends_index(s5.entries@, self.entries@, cfgi);
            lemma_extends_index(s5.entries@, self.entries@, dmi);
            if src.detached_meta is Some {
                lemma_extends_index(s5.entries@, self.entries@, cmi);
            }
            lemma_scaffold_at_extends(
                s5.entries@,
                self.entries@,
                1,
                old(self).options.format_version,
            );
            lemma_grows_contains(
                s5.wrote_dirmeta@,
                self.wrote_dirmeta@,
                src.root_meta_checksum@,
            );
            // Before the walk, the only directory entries are the root and
            // the scaffolding; the walk adds none at an unreachable path.
            assert forall|p: Seq<char>|
                !walk_may_write_dir(p, "./"@, src.root, true) && p != "./"@ && (p.len() == 0
                    || p[0] != 's') implies #[trigger] count_dir_matching(self.entries@, p)
                == 0 by {
                let fv = old(self).options.format_version;
                reveal_strlit("./");
                reveal_strlit("sysroot");
                reveal_strlit("sysroot/ostree");
                reveal_strlit("sysroot/ostree/repo");
                reveal_strlit("sysroot/ostree/repo/objects");
                reveal_strlit("sysroot/ostree/repo/objects/");
                reveal_strlit("sysroot/ostree/repo/tmp");
                reveal_strlit("sysroot/ostree/repo/tmp/cache");
                reveal_strlit("sysroot/ostree/repo/refs");
                reveal_strlit("sysroot/ostree/repo/refs/heads");
                reveal_strlit("sysroot/ostree/repo/refs/mirrors");
                reveal_strlit("sysroot/ostree/repo/refs/remotes");
                reveal_strlit("sysroot/ostree/repo/xattrs");
                assert(scaffold_at(s5.entries@, 1, fv));
                assert forall|idx: int|
                    0 <= idx < s5.entries@.len() implies !((#[trigger] s5.entries@[idx]).body
                    is Dir && s5.entries@[idx].path@ == p) by {
                    if idx == 0 {
                        assert(s5.entries@[0].path@ == "./"@);
                    } else if idx < 1 + scaffold_len(fv) {
                        let q = idx - 1;
                        if 4 <= q < 260 {
                            assert(is_scaffold_dir_entry(
                                s5.entries@[1 + 4 + (q - 4)],
                                spec_shard_path(q - 4),
                            ));
                            assert(spec_shard_path(q - 4)[0] == 's');
                        }
                    } else {
                        assert(idx == ci || (src.detached_meta is Some && idx == cmi) || idx
                            == dmi);
                    }
                }
                lemma_count_dir_zero(s5.entries@, p);
                assert(count_dir_matching(self.entries@, p) == count_dir_matching(
                    s5.entries@,
                    p,
                ));
            }
        }
        Ok(())
    }

    /// Append a hardlink entry with default ownership and permissions
    /// (root/root 0644).
    fn append_default_hardlink(&mut self, path: String, link_target: String)
        ensures
            final(self).entries@ == old(self).entries@.push(
                (TarEntry {
                    path,
                    uid: 0,
                    gid: 0,
                    mode: 0o644,
                    body: EntryBody::Hardlink(link_target),
                }),
            ),
            final(self).same_config(*old(self)),
            final(self).same_sets(*old(self)),
    {
        self.entries.push(
            TarEntry { path, uid: 0, gid: 0, mode: 0o644, body: EntryBody::Hardlink(link_target) },
        );
    }
}

/// Whether `set` holds a string equal to `c`.
fn set_contains(set: &Vec<String>, c: &str) -> (r: bool)
    ensures
        r == str_views(set@).contains(c@),
{
    let mut i: usize = 0;
    while i < set.len()
        invariant
            0 <= i <= set@.len(),
            forall|j: int| 0 <= j < i ==> #[trigger] str_views(set@)[j] != c@,
        decreases set@.len() - i,
    {
        if str_equal(set[i].as_str(), c) {
            proof {
                assert(str_views(set@)[i as int] == c@);
            }
            return true;
        }
        i = i + 1;
    }
    proof {
        assert forall|j: int| 0 <= j < str_views(set@).len() implies #[trigger] str_views(set@)[j]
            != c@ by {}
        assert(!str_views(set@).contains(c@));
    }
    false
}

/// A file's hardlink at its logical path: it carries the file's ownership
/// and format-filtered mode and points at the canonical content object.
pub open spec fn is_tree_link_entry(
    e: TarEntry,
    p: Seq<char>,
    c: Seq<char>,
    meta: FileMeta,
    fv: u32,
) -> bool {
    &&& e.path@ == p
    &&& e.uid == meta.uid as u64
    &&& e.gid == meta.gid as u64
    &&& e.mode == (if fv == 0 {
        meta.mode
    } else {
        meta.mode & 0x0000_0FFF
    })
    &&& (e.body matches EntryBody::Hardlink(t) && t@ == spec_object_path(ObjectType::File, c))
}

/// One file entry's emission: its content object is recorded, and a
/// hardlink stands at its mapped logical path strictly after an entry at the
/// content object's canonical path - the object the link points at is
/// emitted before the link.
pub open spec fn file_node_emitted(
    es: Seq<TarEntry>,
    contents: Seq<Seq<char>>,
    fv: u32,
    dirpath: Seq<char>,
    f: FileNode,
) -> bool {
    &&& contents.contains(f.checksum@)
    &&& (exists|io: int, j: int|
        0 <= io < j < es.len() && (#[trigger] es[io]).path@ == spec_object_path(
            ObjectType::File,
            f.checksum@,
        ) && is_tree_link_entry(
            #[trigger] es[j],
            crate::paths::spec_map_path(spec_join_path(dirpath, f.name@)),
            f.checksum@,
            f.file.meta->Some_0,
            fv,
        ))
}

/// One subdirectory's directory entry at its mapped path, with its metadata
/// record's ownership and the format-filtered mode, standing strictly after
/// an entry at the metadata object's canonical path - the record is emitted
/// before the directory that uses it.
pub open spec fn dir_node_entry_emitted(
    es: Seq<TarEntry>,
    fv: u32,
    sub: Seq<char>,
    d: DirNode,
) -> bool {
    exists|im: int, j: int|
        0 <= im < j < es.len() && (#[trigger] es[im]).path@ == spec_object_path(
            ObjectType::DirMeta,
            d.meta_checksum@,
        ) && is_dir_entry(
            #[trigger] es[j],
            sub,
            d.meta.uid,
            d.meta.gid,
            (if fv == 0 {
                d.meta.mode
            } else {
                d.meta.mode & 0x0000_0FFF
            }),
        )
}

/// The mapped logical path of a child of `dirpath`.
pub open spec fn spec_child_path(dirpath: Seq<char>, name: Seq<char>) -> Seq<char> {
    crate::paths::spec_map_path(spec_join_path(dirpath, name))
}

/// The directory-tree checksums a walk of `tree` can record: the tree's own
/// and, through each subdirectory that is not the root-level
/// scaffolding-name child, its subtree's. The skipped child's subtree is not
/// among them: the walk does not descend into it.
pub open spec fn walk_visits_dirtree(c: Seq<char>, tree: DirTreeObj, is_root: bool) -> bool
    decreases tree,
{
    ||| c == tree.checksum@
    ||| exists|k: int|
        0 <= k < tree.dirs@.len() && !(is_root && (#[trigger] tree.dirs@[k]).name@ == "sysroot"@)
            && walk_visits_dirtree(c, tree.dirs@[k].tree, false)
}

/// The logical paths where a walk of `tree` may put a directory entry: the
/// mapped path of each subdirectory that is not the root-level
/// scaffolding-name child, and recursively its subtree's. The skipped
/// child's mapped path is not among them.
pub open spec fn walk_may_write_dir(
    p: Seq<char>,
    dirpath: Seq<char>,
    tree: DirTreeObj,
    is_root: bool,
) -> bool
    decreases tree,
{
    exists|k: int|
        0 <= k < tree.dirs@.len() && !(is_root && (#[trigger] tree.dirs@[k]).name@ == "sysroot"@)
            && (p == spec_child_path(dirpath, tree.dirs@[k].name@) || walk_may_write_dir(
            p,
            spec_child_path(dirpath, tree.dirs@[k].name@),
            tree.dirs@[k].tree,
            false,
        ))
}

/// The recursive emission of a directory tree into the archive: the tree's
/// own object is recorded; every file entry's content object is recorded and
/// a hardlink stands at its mapped logical path; every subdirectory's
/// metadata object is recorded, a directory entry stands at its mapped path,
/// and its own tree is emitted in turn. At the root level a child named like
/// the scaffolding root keeps only its metadata object: the scaffolding owns
/// that name.
pub open spec fn tree_emitted(
    es: Seq<TarEntry>,
    dirtrees: Seq<Seq<char>>,
    dirmetas: Seq<Seq<char>>,
    contents: Seq<Seq<char>>,
    fv: u32,
    dirpath: Seq<char>,
    tree: DirTreeObj,
    is_root: bool,
) -> bool
    decreases tree,
{
    &&& dirtrees.contains(tree.checksum@)
    &&& (forall|k: int|
        0 <= k < tree.files@.len() ==> file_node_emitted(
            es,
            contents,
            fv,
            dirpath,
            #[trigger] tree.files@[k],
        ))
    &&& (forall|k: int|
        0 <= k < tree.dirs@.len() ==> dirmetas.contains(
            (#[trigger] tree.dirs@[k]).meta_checksum@,
        ))
    &&& (forall|k: int|
        0 <= k < tree.dirs@.len() && !(is_root && (#[trigger] tree.dirs@[k]).name@
            == "sysroot"@) ==> dir_node_entry_emitted(
            es,
            fv,
            spec_child_path(dirpath, tree.dirs@[k].name@),
            tree.dirs@[k],
        ))
    &&& (forall|k: int|
        0 <= k < tree.dirs@.len() && !(is_root && (#[trigger] tree.dirs@[k]).name@
            == "sysroot"@) ==> tree_emitted(
            es,
            dirtrees,
            dirmetas,
            contents,
            fv,
            spec_child_path(dirpath, tree.dirs@[k].name@),
            tree.dirs@[k].tree,
            false,
        ))
}

/// An emitted tree stays emitted as the entry list extends and the
/// deduplication sets grow.
pub proof fn lemma_tree_emitted_grows(
    es1: Seq<TarEntry>,
    es2: Seq<TarEntry>,
    dt1: Seq<String>,
    dt2: Seq<String>,
    dm1: Seq<String>,
    dm2: Seq<String>,
    fc1: Seq<String>,
    fc2: Seq<String>,
    fv: u32,
    dirpath: Seq<char>,
    tree: DirTreeObj,
    is_root: bool,
)
    requires
        tree_emitted(es1, str_views(dt1), str_views(dm1), str_views(fc1), fv, dirpath, tree, is_root),
        extends(es1, es2),
        set_grows(dt1, dt2),
        set_grows(dm1, dm2),
        set_grows(fc1, fc2),
    ensures
        tree_emitted(es2, str_views(dt2), str_views(dm2), str_views(fc2), fv, dirpath, tree, is_root),
    decreases tree,
{
    lemma_grows_contains(dt1, dt2, tree.checksum@);
    assert forall|k: int| 0 <= k < tree.files@.len() implies file_node_emitted(
        es2,
        str_views(fc2),
        fv,
        dirpath,
        #[trigger] tree.files@[k],
    ) by {
        lemma_file_node_emitted_grows(es1, es2, fc1, fc2, fv, dirpath, tree.files@[k]);
    }
    assert forall|k: int| 0 <= k < tree.dirs@.len() implies str_views(dm2).contains(
        (#[trigger] tree.dirs@[k]).meta_checksum@,
    ) by {
        lemma_grows_contains(dm1, dm2, tree.dirs@[k].meta_checksum@);
    }
    assert forall|k: int|
        0 <= k < tree.dirs@.len() && !(is_root && (#[trigger] tree.dirs@[k]).name@
            == "sysroot"@) implies dir_node_entry_emitted(
        es2,
        fv,
        spec_child_path(dirpath, tree.dirs@[k].name@),
        tree.dirs@[k],
    ) by {
        lemma_dir_node_entry_grows(
            es1,
            es2,
            fv,
            spec_child_path(dirpath, tree.dirs@[k].name@),
            tree.dirs@[k],
        );
    }
    assert forall|k: int|
        0 <= k < tree.dirs@.len() && !(is_root && (#[trigger] tree.dirs@[k]).name@
            == "sysroot"@) implies tree_emitted(
        es2,
        str_views(dt2),
        str_views(dm2),
        str_views(fc2),
        fv,
        spec_child_path(dirpath, tree.dirs@[k].name@),
        tree.dirs@[k].tree,
        false,
    ) by {
        let d = tree.dirs@[k];
        lemma_tree_emitted_grows(
            es1,
            es2,
            dt1,
            dt2,
            dm1,
            dm2,
            fc1,
            fc2,
            fv,
            spec_child_path(dirpath, d.name@),
            d.tree,
            false,
        );
    }
}

/// A file entry's recorded emission survives growth of the archive state.
proof fn lemma_file_node_emitted_grows(
    es1: Seq<TarEntry>,
    es2: Seq<TarEntry>,
    fc1: Seq<String>,
    fc2: Seq<String>,
    fv: u32,
    dirpath: Seq<char>,
    f: FileNode,
)
    requires
        file_node_emitted(es1, str_views(fc1), fv, dirpath, f),
        extends(es1, es2),
        set_grows(fc1, fc2),
    ensures
        file_node_emitted(es2, str_views(fc2), fv, dirpath, f),
{
    lemma_grows_contains(fc1, fc2, f.checksum@);
    let (io, j) = choose|io: int, j: int|
        0 <= io < j < es1.len() && (#[trigger] es1[io]).path@ == spec_object_path(
            ObjectType::File,
            f.checksum@,
        ) && is_tree_link_entry(
            #[trigger] es1[j],
            crate::paths::spec_map_path(spec_join_path(dirpath, f.name@)),
            f.checksum@,
            f.file.meta->Some_0,
            fv,
        );
    lemma_extends_index(es1, es2, io);
    lemma_extends_index(es1, es2, j);
}

/// A subdirectory's directory entry survives growth of the entry list.
proof fn lemma_dir_node_entry_grows(
    es1: Seq<TarEntry>,
    es2: Seq<TarEntry>,
    fv: u32,
    sub: Seq<char>,
    d: DirNode,
)
    requires
        dir_node_entry_emitted(es1, fv, sub, d),
        extends(es1, es2),
    ensures
        dir_node_entry_emitted(es2, fv, sub, d),
{
    let (im, j) = choose|im: int, j: int|
        0 <= im < j < es1.len() && (#[trigger] es1[im]).path@ == spec_object_path(
            ObjectType::DirMeta,
            d.meta_checksum@,
        ) && is_dir_entry(
            #[trigger] es1[j],
            sub,
            d.meta.uid,
            d.meta.gid,
            (if fv == 0 {
                d.meta.mode
            } else {
                d.meta.mode & 0x0000_0FFF
            }),
        );
    lemma_extends_index(es1, es2, im);
    lemma_extends_index(es1, es2, j);
}

/// The attribute deduplication set after a run of codec events, each event a
/// pair of one file's checksum and its blob's digest, mirroring one
/// `append_xattrs` call that got past the empty-blob shortcut. The set
/// records the owning file's checksum, while the write guard tests the
/// blob's own digest; that literal keying is part of the on-disk contract.
pub open spec fn xattr_set_after(events: Seq<(Seq<char>, Seq<char>)>) -> Seq<Seq<char>>
    decreases events.len(),
{
    if events.len() == 0 {
        Seq::empty()
    } else {
        let prior = xattr_set_after(events.drop_last());
        if prior.contains(events.last().1) {
            prior
        } else {
            prior.push(events.last().0)
        }
    }
}

/// How many times the blob with digest `d` goes out over a run of events.
pub open spec fn xattr_writes_of(events: Seq<(Seq<char>, Seq<char>)>, d: Seq<char>) -> int
    decreases events.len(),
{
    if events.len() == 0 {
        0
    } else {
        xattr_writes_of(events.drop_last(), d) + if events.last().1 == d && !xattr_set_after(
            events.drop_last(),
        ).contains(d) {
            1int
        } else {
            0int
        }
    }
}

/// A written digest occurs among the events.
proof fn lemma_xattr_writes_source(events: Seq<(Seq<char>, Seq<char>)>, d: Seq<char>)
    requires
        xattr_writes_of(events, d) > 0,
    ensures
        exists|i: int| 0 <= i < events.len() && #[trigger] events[i].1 == d,
    decreases events.len(),
{
    if events.len() > 0 {
        if events.last().1 == d {
            assert(events[events.len() - 1].1 == d);
        } else {
            lemma_xattr_writes_source(events.drop_last(), d);
            let i = choose|i: int|
                0 <= i < events.drop_last().len() && #[trigger] events.drop_last()[i].1 == d;
            assert(events[i].1 == d);
        }
    }
}

/// An attribute blob is written to the archive at most once per digest, over
/// any export run in which distinct files carry attribute blobs with
/// distinct digests. The restriction is forced by the codec's keying: the
/// deduplication set records the owning file's checksum while the write
/// guard tests the blob's digest, so a run in which two distinct files share
/// one blob digest writes that blob once per file.
pub proof fn lemma_xattr_blob_written_at_most_once(
    events: Seq<(Seq<char>, Seq<char>)>,
    d: Seq<char>,
)
    requires
        forall|i: int, j: int|
            0 <= i < events.len() && 0 <= j < events.len() && i != j ==> #[trigger] events[i].1
                != #[trigger] events[j].1,
    ensures
        xattr_writes_of(events, d) <= 1,
    decreases events.len(),
{
    if events.len() > 0 {
        let prior = events.drop_last();
        lemma_xattr_blob_written_at_most_once(prior, d);
        if events.last().1 == d && !xattr_set_after(prior).contains(d) {
            if xattr_writes_of(prior, d) > 0 {
                lemma_xattr_writes_source(prior, d);
                let i = choose|i: int| 0 <= i < prior.len() && #[trigger] prior[i].1 == d;
                assert(events[i].1 == events[events.len() - 1].1);
                assert(false);
            }
        }
    }
}

/// The options an export run uses when the caller gives none: format 0.
pub open spec fn effective_options(options: Option<ExportOptions>) -> ExportOptions {
    match options {
        Some(o) => o,
        None => ExportOptions { format_version: 0 },
    }
}

/// What a finished export's entry list guarantees: the root directory stands
/// first and the complete scaffolding follows it as one block; straight
/// after stand the commit object, the detached-metadata object when the
/// store has one, and the root directory-metadata object, each with its
/// exact bytes; the commit object stands at its canonical path exactly once;
/// each directory-tree, directory-metadata and file-content object stands at
/// its canonical path at most once, however many tree entries referenced its
/// checksum; and the whole root tree is emitted recursively, deduplicated by
/// the sets the last clause quantifies over.
pub open spec fn export_ok(es: Seq<TarEntry>, src: CommitSource, opts: ExportOptions) -> bool {
    &&& es.len() > 0
    &&& is_dir_entry(
        es[0],
        "./"@,
        src.root_meta.uid,
        src.root_meta.gid,
        (if opts.format_version == 0 {
            src.root_meta.mode
        } else {
            src.root_meta.mode & 0x0000_0FFF
        }),
    )
    &&& is_checksum(src.checksum@)
    &&& count_matching(es, spec_object_path(ObjectType::Commit, src.checksum@)) == 1
    &&& (exists|k: int|
        0 <= k < es.len() && is_object_entry(
            #[trigger] es[k],
            ObjectType::Commit,
            src.checksum@,
            src.raw@,
        ))
    &&& (forall|c: Seq<char>|
        is_checksum(c) ==> #[trigger] count_matching(es, spec_object_path(ObjectType::DirTree, c))
            <= 1)
    &&& (forall|c: Seq<char>|
        is_checksum(c) ==> #[trigger] count_matching(es, spec_object_path(ObjectType::DirMeta, c))
            <= 1)
    &&& (forall|c: Seq<char>|
        is_checksum(c) ==> #[trigger] count_matching(es, spec_object_path(ObjectType::File, c))
            <= 1)
    &&& is_checksum(src.root.checksum@)
    &&& count_matching(es, spec_object_path(ObjectType::DirTree, src.root.checksum@)) == 1
    &&& is_checksum(src.root_meta_checksum@)
    &&& count_matching(es, spec_object_path(ObjectType::DirMeta, src.root_meta_checksum@)) == 1
    &&& (exists|k: int|
        0 <= k < es.len() && is_default_data_entry(
            #[trigger] es[k],
            spec_config_path(opts.format_version),
            REPO_CONFIG.spec_bytes(),
        ))
    &&& scaffold_at(es, 1, opts.format_version)
    &&& es.len() > (if src.detached_meta is Some {
        3int
    } else {
        2int
    }) + scaffold_len(opts.format_version)
    &&& is_object_entry(
        es[1 + scaffold_len(opts.format_version)],
        ObjectType::Commit,
        src.checksum@,
        src.raw@,
    )
    &&& (src.detached_meta is Some ==> is_object_entry(
        es[2 + scaffold_len(opts.format_version)],
        ObjectType::CommitMeta,
        src.checksum@,
        src.detached_meta->Some_0@,
    ))
    &&& is_object_entry(
        es[(if src.detached_meta is Some {
            3int
        } else {
            2int
        }) + scaffold_len(opts.format_version)],
        ObjectType::DirMeta,
        src.root_meta_checksum@,
        src.root_meta.raw@,
    )
    &&& (src.detached_meta is Some ==> exists|k: int|
        0 <= k < es.len() && is_object_entry(
            #[trigger] es[k],
            ObjectType::CommitMeta,
            src.checksum@,
            src.detached_meta->Some_0@,
        ))
    &&& (exists|k: int|
        0 <= k < es.len() && is_object_entry(
            #[trigger] es[k],
            ObjectType::DirMeta,
            src.root_meta_checksum@,
            src.root_meta.raw@,
        ))
    &&& (exists|k: int|
        0 <= k < es.len() && is_object_entry(
            #[trigger] es[k],
            ObjectType::DirTree,
            src.root.checksum@,
            src.root.raw@,
        ))
    &&& (forall|p: Seq<char>|
        !walk_may_write_dir(p, "./"@, src.root, true) && p != "./"@ && (p.len() == 0 || p[0]
            != 's') ==> #[trigger] count_dir_matching(es, p) == 0)
    &&& (exists|dt: Seq<Seq<char>>, dm: Seq<Seq<char>>, fc: Seq<Seq<char>>|
        #![trigger obj_once(es, dt, ObjectType::DirTree), obj_once(es, dm, ObjectType::DirMeta), obj_once(es, fc, ObjectType::File)]
        obj_once(es, dt, ObjectType::DirTree) && obj_once(es, dm, ObjectType::DirMeta) && obj_once(
            es,
            fc,
            ObjectType::File,
        ) && tree_emitted(es, dt, dm, fc, opts.format_version, "./"@, src.root, true) && (
        forall|c: Seq<char>| dt.contains(c) ==> walk_visits_dirtree(c, src.root, true)))
}

/// Recursively walk a commit and generate the archive entry list: all the
/// metadata objects, plus a hardlinked stream that looks like a checkout.
/// Extended attributes go out of band, keyed by digest.
pub fn impl_export(src: &CommitSource, options: ExportOptions) -> (r: Result<
    Vec<TarEntry>,
    ExportError,
>)
    ensures
        r matches Ok(es) ==> export_ok(es@, *src, options) && options.is_supported(),
        !options.is_supported() ==> (r matches Err(e) && e == ExportError::UnsupportedFormat(
            options.format_version,
        )),
        options.is_supported() && commit_source_wf(*src) ==> (r is Ok || r matches Err(
            ExportError::Digest,
        )),
        (r matches Err(e) && (e == ExportError::InvalidChecksum || e
            == ExportError::MissingMetadata || e == ExportError::MissingXattrs || e
            == ExportError::MissingSymlinkTarget || e == ExportError::WrongFileType))
            ==> !commit_source_wf(*src),
{
    let mut writer = TarWriter::new(options);
    match writer.write_commit(src) {
        Ok(_) => {},
        Err(e) => {
            return Err(e);
        },
    }
    proof {
        let es = writer.entries@;
        let cs = src.checksum@;
        assert(writer.commits@.contains(cs)) by {
            assert(writer.commits@[0] == cs);
        }
        let dt = str_views(writer.wrote_dirtree@);
        let dm = str_views(writer.wrote_dirmeta@);
        let fc = str_views(writer.wrote_content@);
        assert(obj_once(es, dt, ObjectType::DirTree));
        assert(obj_once(es, dm, ObjectType::DirMeta));
        assert(obj_once(es, fc, ObjectType::File));
        assert(tree_emitted(es, dt, dm, fc, options.format_version, "./"@, src.root, true));
        assert(count_matching(es, spec_object_path(ObjectType::Commit, cs)) == 1);
        assert(count_matching(es, spec_object_path(ObjectType::DirTree, src.root.checksum@))
            == 1);
        assert(count_matching(es, spec_object_path(ObjectType::DirMeta, src.root_meta_checksum@))
            == 1);
        assert forall|c: Seq<char>| is_checksum(c) implies #[trigger] count_matching(
            es,
            spec_object_path(ObjectType::DirTree, c),
        ) <= 1 by {}
        assert forall|c: Seq<char>| is_checksum(c) implies #[trigger] count_matching(
            es,
            spec_object_path(ObjectType::DirMeta, c),
        ) <= 1 by {}
        assert forall|c: Seq<char>| is_checksum(c) implies #[trigger] count_matching(
            es,
            spec_object_path(ObjectType::File, c),
        ) <= 1 by {}
    }
    Ok(writer.entries)
}

/// Export a commit as an archive entry list. With no options the default
/// format is used.
pub fn export_commit(src: &CommitSource, options: Option<ExportOptions>) -> (r: Result<
    Vec<TarEntry>,
    ExportError,
>)
    ensures
        r matches Ok(es) ==> export_ok(es@, *src, effective_options(options)) && effective_options(
            options,
        ).is_supported(),
        !effective_options(options).is_supported() ==> (r matches Err(e) && e
            == ExportError::UnsupportedFormat(effective_options(options).format_version)),
        effective_options(options).is_supported() && commit_source_wf(*src) ==> (r is Ok
            || r matches Err(ExportError::Digest)),
        (r matches Err(e) && (e == ExportError::InvalidChecksum || e
            == ExportError::MissingMetadata || e == ExportError::MissingXattrs || e
            == ExportError::MissingSymlinkTarget || e == ExportError::WrongFileType))
            ==> !commit_source_wf(*src),
{
    let opts = match options {
        Some(o) => o,
        None => ExportOptions::default(),
    };
    impl_export(src, opts)
}

} // verus!
