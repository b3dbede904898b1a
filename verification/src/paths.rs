//! Path layout: pure functions mapping an object's type and checksum (or a
//! well-known path) to its canonical location inside the archive's synthetic
//! filesystem tree.

use vstd::prelude::*;

verus! {

/// The archive's scaffolding root directory name.
pub const SYSROOT: &'static str = "sysroot";

/// The repository root inside the archive; the usual `ostree -> sysroot/ostree`
/// symlink convention then works on a materialized tree.
pub const OSTREEDIR: &'static str = "sysroot/ostree";

/// The five object kinds a commit graph can reference.
#[derive(Clone, Copy, PartialEq, Eq, Structural, Debug)]
pub enum ObjectType {
    Commit,
    CommitMeta,
    DirTree,
    DirMeta,
    File,
}

/// A lowercase hexadecimal digit.
pub open spec fn spec_is_hex_lower(c: char) -> bool {
    ('0' <= c && c <= '9') || ('a' <= c && c <= 'f')
}

/// A well-formed checksum: exactly 64 lowercase hex digits.
pub open spec fn is_checksum(s: Seq<char>) -> bool {
    s.len() == 64 && (forall|i: int| 0 <= i < 64 ==> spec_is_hex_lower(#[trigger] s[i]))
}

/// Whether `s` is a well-formed checksum (64 lowercase hex digits).
pub fn validate_checksum(s: &str) -> (r: bool)
    ensures
        r == is_checksum(s@),
{
    let n = s.unicode_len();
    if n != 64 {
        return false;
    }
    let mut i: usize = 0;
    while i < 64
        invariant
            0 <= i <= 64,
            s@.len() == 64,
            forall|j: int| 0 <= j < i ==> spec_is_hex_lower(#[trigger] s@[j]),
        decreases 64 - i,
    {
        let c = s.get_char(i);
        let ok = ('0' <= c && c <= '9') || ('a' <= c && c <= 'f');
        if !ok {
            return false;
        }
        i = i + 1;
    }
    true
}

/// The filename suffix for each object kind.
pub open spec fn spec_object_suffix(t: ObjectType) -> Seq<char> {
    match t {
        ObjectType::Commit => "commit"@,
        ObjectType::CommitMeta => "commitmeta"@,
        ObjectType::DirTree => "dirtree"@,
        ObjectType::DirMeta => "dirmeta"@,
        ObjectType::File => "file"@,
    }
}

/// Canonical object location: `sysroot/ostree/repo/objects/<2 hex>/<62 hex>.<suffix>`.
pub open spec fn spec_object_path(t: ObjectType, c: Seq<char>) -> Seq<char> {
    "sysroot/ostree/repo/objects/"@ + c.take(2) + "/"@ + c.skip(2) + "."@ + spec_object_suffix(t)
}

fn object_suffix(t: ObjectType) -> (r: &'static str)
    ensures
        r@ == spec_object_suffix(t),
{
    match t {
        ObjectType::Commit => "commit",
        ObjectType::CommitMeta => "commitmeta",
        ObjectType::DirTree => "dirtree",
        ObjectType::DirMeta => "dirmeta",
        ObjectType::File => "file",
    }
}

/// Canonical archive path of the object with type `t` and checksum `checksum`.
pub fn object_path(t: ObjectType, checksum: &str) -> (r: String)
    requires
        is_checksum(checksum@),
    ensures
        r@ == spec_object_path(t, checksum@),
{
    let mut r = String::from_str("sysroot/ostree/repo/objects/");
    r.append(checksum.substring_char(0, 2));
    r.append("/");
    r.append(checksum.substring_char(2, 64));
    r.append(".");
    r.append(object_suffix(t));
    proof {
        assert(checksum@.subrange(0, 2) =~= checksum@.take(2));
        assert(checksum@.subrange(2, 64) =~= checksum@.skip(2));
        assert(r@ =~= spec_object_path(t, checksum@));
    }
    r
}

/// Format-0 shared attribute blob location, keyed by the blob's own digest.
pub open spec fn spec_v0_xattrs_path(c: Seq<char>) -> Seq<char> {
    "sysroot/ostree/repo/xattrs/"@ + c
}

/// Format-0 path of the shared attribute blob for digest `checksum`.
pub fn v0_xattrs_path(checksum: &str) -> (r: String)
    requires
        is_checksum(checksum@),
    ensures
        r@ == spec_v0_xattrs_path(checksum@),
{
    let mut r = String::from_str("sysroot/ostree/repo/xattrs/");
    r.append(checksum);
    r
}

/// Format-0 per-file attribute link location, keyed by the owning file's checksum.
pub open spec fn spec_v0_xattrs_object_path(c: Seq<char>) -> Seq<char> {
    "sysroot/ostree/repo/objects/"@ + c.take(2) + "/"@ + c.skip(2) + ".file.xattrs"@
}

/// Format-0 path of the per-file attribute link for file checksum `checksum`.
pub fn v0_xattrs_object_path(checksum: &str) -> (r: String)
    requires
        is_checksum(checksum@),
    ensures
        r@ == spec_v0_xattrs_object_path(checksum@),
{
    let mut r = String::from_str("sysroot/ostree/repo/objects/");
    r.append(checksum.substring_char(0, 2));
    r.append("/");
    r.append(checksum.substring_char(2, 64));
    r.append(".file.xattrs");
    proof {
        assert(checksum@.subrange(0, 2) =~= checksum@.take(2));
        assert(checksum@.subrange(2, 64) =~= checksum@.skip(2));
        assert(r@ =~= spec_v0_xattrs_object_path(checksum@));
    }
    r
}

/// Format-1 standalone attribute object location, keyed by the blob's own digest.
pub open spec fn spec_v1_xattrs_object_path(c: Seq<char>) -> Seq<char> {
    "sysroot/ostree/repo/objects/"@ + c.take(2) + "/"@ + c.skip(2) + ".file-xattrs"@
}

/// Format-1 path of the standalone attribute object for digest `checksum`.
pub fn v1_xattrs_object_path(checksum: &str) -> (r: String)
    requires
        is_checksum(checksum@),
    ensures
        r@ == spec_v1_xattrs_object_path(checksum@),
{
    let mut r = String::from_str("sysroot/ostree/repo/objects/");
    r.append(checksum.substring_char(0, 2));
    r.append("/");
    r.append(checksum.substring_char(2, 64));
    r.append(".file-xattrs");
    proof {
        assert(checksum@.subrange(0, 2) =~= checksum@.take(2));
        assert(checksum@.subrange(2, 64) =~= checksum@.skip(2));
        assert(r@ =~= spec_v1_xattrs_object_path(checksum@));
    }
    r
}

/// Format-1 attribute link object location, keyed by the owning file's checksum.
pub open spec fn spec_v1_xattrs_link_object_path(c: Seq<char>) -> Seq<char> {
    "sysroot/ostree/repo/objects/"@ + c.take(2) + "/"@ + c.skip(2) + ".file-xattrs-link"@
}

/// Format-1 path of the attribute link object for file checksum `checksum`.
pub fn v1_xattrs_link_object_path(checksum: &str) -> (r: String)
    requires
        is_checksum(checksum@),
    ensures
        r@ == spec_v1_xattrs_link_object_path(checksum@),
{
    let mut r = String::from_str("sysroot/ostree/repo/objects/");
    r.append(checksum.substring_char(0, 2));
    r.append("/");
    r.append(checksum.substring_char(2, 64));
    r.append(".file-xattrs-link");
    proof {
        assert(checksum@.subrange(0, 2) =~= checksum@.take(2));
        assert(checksum@.subrange(2, 64) =~= checksum@.skip(2));
        assert(r@ =~= spec_v1_xattrs_link_object_path(checksum@));
    }
    r
}

/// What the read-only default-configuration rewrite yields: a path equal to
/// `./usr/etc` becomes `./etc/`, one below it has that prefix replaced by
/// `./etc/`, and every other path is unchanged.
pub open spec fn spec_map_path(p: Seq<char>) -> Seq<char> {
    if p == "./usr/etc"@ {
        "./etc/"@
    } else if "./usr/etc/"@.is_prefix_of(p) {
        "./etc/"@ + p.skip(10)
    } else {
        p
    }
}

/// Rewrite the default-configuration overlay prefix `./usr/etc` to its
/// effective location `./etc`; identity on every other path.
pub fn map_path(p: &str) -> (r: String)
    ensures
        r@ == spec_map_path(p@),
{
    proof {
        reveal_strlit("./usr/etc");
        reveal_strlit("./usr/etc/");
        reveal_strlit("./etc/");
    }
    let n = p.unicode_len();
    let prefix = "./usr/etc/";
    if n == 9 && str_eq_prefix(p, "./usr/etc", 9) {
        proof {
            assert(p@.take(9) =~= p@);
            assert("./usr/etc"@.take(9) =~= "./usr/etc"@);
        }
        return String::from_str("./etc/");
    }
    if n >= 10 && str_eq_prefix(p, prefix, 10) {
        proof {
            assert(prefix@.is_prefix_of(p@));
            assert(p@ != "./usr/etc"@);
        }
        let mut r = String::from_str("./etc/");
        r.append(p.substring_char(10, n));
        proof {
            assert(p@.subrange(10, n as int) =~= p@.skip(10));
        }
        return r;
    }
    proof {
        assert(p@ != "./usr/etc"@);
        assert(!"./usr/etc/"@.is_prefix_of(p@));
    }
    String::from_str(p)
}

/// Whether the first `k` characters of `p` equal the first `k` of `q`.
pub fn str_eq_prefix(p: &str, q: &str, k: usize) -> (r: bool)
    requires
        k <= p@.len(),
        k <= q@.len(),
    ensures
        r == (p@.take(k as int) == q@.take(k as int)),
{
    let mut i: usize = 0;
    while i < k
        invariant
            0 <= i <= k,
            k <= p@.len(),
            k <= q@.len(),
            forall|j: int| 0 <= j < i ==> p@[j] == q@[j],
        decreases k - i,
    {
        if p.get_char(i) != q.get_char(i) {
            proof {
                assert(p@.take(k as int)[i as int] != q@.take(k as int)[i as int]);
            }
            return false;
        }
        i = i + 1;
    }
    proof {
        assert(p@.take(k as int) =~= q@.take(k as int));
    }
    true
}

/// `p` is not the canonical path of any object, whatever its type and checksum.
pub open spec fn not_an_object_path(p: Seq<char>) -> bool {
    forall|t: ObjectType, c: Seq<char>| is_checksum(c) ==> p != #[trigger] spec_object_path(t, c)
}

/// Length, first character, and checksum segments of a canonical object path.
pub proof fn lemma_objpath_shape(t: ObjectType, c: Seq<char>)
    requires
        is_checksum(c),
    ensures
        spec_object_path(t, c).len() == 94 + spec_object_suffix(t).len(),
        spec_object_suffix(t).len() == (match t {
            ObjectType::Commit => 6int,
            ObjectType::CommitMeta => 10int,
            ObjectType::DirTree => 7int,
            ObjectType::DirMeta => 7int,
            ObjectType::File => 4int,
        }),
        spec_object_path(t, c)[0] == 's',
        spec_object_path(t, c).subrange(28, 30) =~= c.take(2),
        spec_object_path(t, c).subrange(31, 93) =~= c.skip(2),
        t is DirTree ==> spec_object_path(t, c)[97] == 't',
        t is DirMeta ==> spec_object_path(t, c)[97] == 'm',
{
    reveal_strlit("sysroot/ostree/repo/objects/");
    reveal_strlit("/");
    reveal_strlit(".");
    reveal_strlit("commit");
    reveal_strlit("commitmeta");
    reveal_strlit("dirtree");
    reveal_strlit("dirmeta");
    reveal_strlit("file");
}

/// Two canonical object paths are equal only for the same type and checksum.
pub proof fn lemma_objpath_ne(t1: ObjectType, c1: Seq<char>, t2: ObjectType, c2: Seq<char>)
    requires
        is_checksum(c1),
        is_checksum(c2),
        t1 != t2 || c1 != c2,
    ensures
        spec_object_path(t1, c1) != spec_object_path(t2, c2),
{
    lemma_objpath_shape(t1, c1);
    lemma_objpath_shape(t2, c2);
    if spec_object_path(t1, c1) == spec_object_path(t2, c2) {
        if t1 == t2 {
            assert(c1.take(2) =~= c2.take(2));
            assert(c1.skip(2) =~= c2.skip(2));
            assert(c1 =~= c1.take(2) + c1.skip(2));
            assert(c2 =~= c2.take(2) + c2.skip(2));
            assert(false);
        } else {
            assert(spec_object_suffix(t1).len() == spec_object_suffix(t2).len());
            assert((t1 is DirTree && t2 is DirMeta) || (t1 is DirMeta && t2 is DirTree));
            assert(false);
        }
    }
}

/// A path whose length matches no object-path length names no object.
pub proof fn lemma_not_obj_by_len(p: Seq<char>)
    requires
        p.len() != 98,
        p.len() != 100,
        p.len() != 101,
        p.len() != 104,
    ensures
        not_an_object_path(p),
{
    assert forall|t: ObjectType, c: Seq<char>| is_checksum(c) implies p != #[trigger] spec_object_path(t, c) by {
        lemma_objpath_shape(t, c);
    }
}

/// A path that starts with `.` names no object; object paths start with `s`.
pub proof fn lemma_not_obj_by_dot(p: Seq<char>)
    requires
        p.len() > 0,
        p[0] == '.',
    ensures
        not_an_object_path(p),
{
    assert forall|t: ObjectType, c: Seq<char>| is_checksum(c) implies p != #[trigger] spec_object_path(t, c) by {
        lemma_objpath_shape(t, c);
    }
}

/// Path layout is deterministic: the canonical path is a pure function of
/// object type and checksum, so equal inputs yield byte-identical paths
/// across calls and runs. The executable path builders pin their results to
/// these spec functions, so the same holds of them.
pub proof fn lemma_path_layout_deterministic(
    t1: ObjectType,
    c1: Seq<char>,
    t2: ObjectType,
    c2: Seq<char>,
)
    requires
        t1 == t2,
        c1 == c2,
    ensures
        spec_object_path(t1, c1) == spec_object_path(t2, c2),
        spec_v0_xattrs_path(c1) == spec_v0_xattrs_path(c2),
        spec_v0_xattrs_object_path(c1) == spec_v0_xattrs_object_path(c2),
        spec_v1_xattrs_object_path(c1) == spec_v1_xattrs_object_path(c2),
        spec_v1_xattrs_link_object_path(c1) == spec_v1_xattrs_link_object_path(c2),
{
}

/// Lengths and first characters of the attribute-object paths.
pub proof fn lemma_xattrs_paths_shape(c: Seq<char>)
    requires
        is_checksum(c),
    ensures
        spec_v0_xattrs_path(c).len() == 91,
        spec_v0_xattrs_path(c)[0] == 's',
        spec_v0_xattrs_object_path(c).len() == 105,
        spec_v0_xattrs_object_path(c)[0] == 's',
        spec_v1_xattrs_object_path(c).len() == 105,
        spec_v1_xattrs_object_path(c)[0] == 's',
        spec_v1_xattrs_link_object_path(c).len() == 110,
        spec_v1_xattrs_link_object_path(c)[0] == 's',
{
    reveal_strlit("sysroot/ostree/repo/xattrs/");
    reveal_strlit("sysroot/ostree/repo/objects/");
    reveal_strlit("/");
    reveal_strlit(".file.xattrs");
    reveal_strlit(".file-xattrs");
    reveal_strlit(".file-xattrs-link");
}

/// Whether two string slices hold the same characters.
pub fn str_equal(a: &str, b: &str) -> (r: bool)
    ensures
        r == (a@ == b@),
{
    let n = a.unicode_len();
    let m = b.unicode_len();
    if n != m {
        return false;
    }
    let r = str_eq_prefix(a, b, n);
    proof {
        assert(a@.take(n as int) =~= a@);
        assert(b@.take(n as int) =~= b@);
    }
    r
}

/// The rewrite keeps a leading `.`: the effective path of a logical tree
/// entry never collides with the scaffolding, whose paths start with `s`.
pub proof fn lemma_map_path_dot(p: Seq<char>)
    requires
        p.len() > 0,
        p[0] == '.',
    ensures
        spec_map_path(p).len() > 0,
        spec_map_path(p)[0] == '.',
{
    reveal_strlit("./etc/");
    reveal_strlit("./usr/etc");
    reveal_strlit("./usr/etc/");
}

/// An owned copy of a string, character for character.
pub fn copy_string(s: &String) -> (r: String)
    ensures
        r@ == s@,
{
    String::from_str(s.as_str())
}

/// Path join: a single separator between base and name, none when the base
/// already ends with one.
pub open spec fn spec_join_path(b: Seq<char>, n: Seq<char>) -> Seq<char> {
    if b[b.len() - 1] == '/' {
        b + n
    } else {
        b + "/"@ + n
    }
}

/// Join a directory path and an entry name with a single separator.
pub fn join_path(base: &String, name: &String) -> (r: String)
    requires
        base@.len() > 0,
    ensures
        r@ == spec_join_path(base@, name@),
{
    let blen = base.as_str().unicode_len();
    let last = base.as_str().get_char(blen - 1);
    let mut r = copy_string(base);
    if last != '/' {
        r.append("/");
    }
    r.append(name.as_str());
    r
}

/// A denormal symlink target: one that contains a doubled path separator.
pub open spec fn spec_is_denormal(s: Seq<char>) -> bool {
    exists|i: int| 0 <= i && i + 1 < s.len() && #[trigger] s[i] == '/' && s[i + 1] == '/'
}

/// Whether a symlink target contains `//`; such targets must be written with
/// a literal link-name encoding so they round-trip byte-for-byte.
pub fn symlink_is_denormal(target: &str) -> (r: bool)
    ensures
        r == spec_is_denormal(target@),
{
    let n = target.unicode_len();
    if n < 2 {
        return false;
    }
    let mut i: usize = 0;
    while i + 1 < n
        invariant
            0 <= i,
            i + 1 <= n,
            n == target@.len(),
            forall|j: int| 0 <= j && j + 1 < i + 1 ==> !(#[trigger] target@[j] == '/' && target@[j + 1] == '/'),
        decreases n - i,
    {
        if target.get_char(i) == '/' && target.get_char(i + 1) == '/' {
            return true;
        }
        i = i + 1;
    }
    false
}

} // verus!
