//! Confinement of archive-internal names to the output directory.
//!
//! A name is first normalized lexically; the result is then checked
//! explicitly, so that confinement never rests on normalization alone.

use crate::records::ZipError;
use normalize_path::NormalizePath;
use std::path::Path;
use vstd::prelude::*;
use vstd::string::StringExecFns;
use vstd::utf8::{
    decode_utf8, encode_utf8, encode_utf8_decode_utf8, encode_utf8_valid_utf8, is_char_boundary,
    is_char_boundary_iff_not_is_continuation_byte,
};

verus! {

pub const SLASH: u8 = 0x2f;

pub const DOT: u8 = 0x2e;

/// Where the extracted bytes of one entry go.
pub struct EntryPath {
    /// The directory that must exist before the file is written.
    pub dir: String,
    /// The file itself.
    pub path: String,
}

/// Whether a path component starts at `i`.
pub open spec fn component_starts(p: Seq<u8>, i: int) -> bool {
    i == 0 || p[i - 1] == SLASH
}

/// Whether the component starting at `i` is `.` or `..`.
pub open spec fn dot_component(p: Seq<u8>, i: int) -> bool {
    p[i] == DOT && (i + 1 == p.len() || p[i + 1] == SLASH || (p[i + 1] == DOT && (i + 2
        == p.len() || p[i + 2] == SLASH)))
}

/// A relative path that names something strictly below the directory it is
/// resolved in: it is not empty, and no component of it is empty, `.` or `..`.
pub open spec fn is_confined(rel: Seq<u8>) -> bool {
    &&& rel.len() > 0
    &&& rel.last() != SLASH
    &&& forall|i: int|
        0 <= i < rel.len() && component_starts(rel, i) ==> rel[i] != SLASH && !dot_component(
            rel,
            i,
        )
}

/// The first offset at or after `i` that does not hold a slash.
pub open spec fn skip_slashes(b: Seq<u8>, i: int) -> int
    decreases b.len() - i,
{
    if 0 <= i < b.len() && b[i] == SLASH {
        skip_slashes(b, i + 1)
    } else {
        i
    }
}

/// A path with its leading slashes removed.
pub open spec fn relative_part(b: Seq<u8>) -> Seq<u8> {
    b.subrange(skip_slashes(b, 0), b.len() as int)
}

/// The offset of the last slash before `i`, or 0 when there is none.
pub open spec fn last_slash_before(b: Seq<u8>, i: int) -> int
    decreases i,
{
    if i <= 0 {
        0
    } else if b[i - 1] == SLASH {
        i - 1
    } else {
        last_slash_before(b, i - 1)
    }
}

/// `path` is `root`, a slash, and a path whose relative part is confined:
/// it names something strictly inside `root`.
pub open spec fn inside_root(path: Seq<char>, root: Seq<char>) -> bool {
    &&& path.len() > root.len()
    &&& path.subrange(0, root.len() as int) == root
    &&& path[root.len() as int] == '/'
    &&& is_confined(
        relative_part(encode_utf8(path.subrange(root.len() as int + 1, path.len() as int))),
    )
}

/// Whether a normalized name, with its leading slashes removed, is confined.
pub open spec fn name_is_confined(normalized: Seq<char>) -> bool {
    is_confined(relative_part(encode_utf8(normalized)))
}

/// The file a normalized name is written to: `root`, a slash, and the name.
pub open spec fn output_path(root: Seq<char>, normalized: Seq<char>) -> Seq<char> {
    root + seq!['/'] + normalized
}

/// The directory created before writing: `root`, a slash, and the name up to
/// its last slash (nothing when it has none).
pub open spec fn output_dir(root: Seq<char>, normalized: Seq<char>) -> Seq<char> {
    let b = encode_utf8(normalized);
    root + seq!['/'] + decode_utf8(b.subrange(0, last_slash_before(b, b.len() as int)))
}

/// What normalize_path's `normalize` makes of a name. Resolving `.` and `..`
/// lexically, it depends on the name alone.
pub uninterp spec fn normalized_of(name: Seq<char>) -> Seq<char>;

/// Checks [`is_confined`].
pub fn check_confined(rel: &[u8]) -> (r: bool)
    ensures
        r == is_confined(rel@),
{
    let n = rel.len();
    if n == 0 || rel[n - 1] == SLASH {
        return false;
    }
    let mut i: usize = 0;
    while i < n
        invariant
            n == rel@.len(),
            n > 0,
            rel@.last() != SLASH,
            forall|j: int|
                0 <= j < i && component_starts(rel@, j) ==> rel@[j] != SLASH && !dot_component(
                    rel@,
                    j,
                ),
        decreases n - i,
    {
        if i == 0 || rel[i - 1] == SLASH {
            if rel[i] == SLASH {
                return false;
            }
            if rel[i] == DOT {
                if i + 1 == n || rel[i + 1] == SLASH {
                    return false;
                }
                if rel[i + 1] == DOT && (i + 2 == n || rel[i + 2] == SLASH) {
                    return false;
                }
            }
        }
        i = i + 1;
    }
    true
}

/// Builds the output location of an already normalized name: `root`, a slash,
/// and the name. Fails unless the name, with its leading slashes removed, is
/// confined.
pub fn confine_path(root: &str, normalized: &str) -> (r: Result<EntryPath, ZipError>)
    ensures
        r is Ok <==> name_is_confined(normalized@),
        r matches Err(e) ==> e == ZipError::UnsafePath,
        r matches Ok(ep) ==> ep.path@ == output_path(root@, normalized@),
        r matches Ok(ep) ==> ep.dir@ == output_dir(root@, normalized@),
{
    let b = normalized.as_bytes();
    let n = b.len();
    let mut k: usize = 0;
    while k < n && b[k] == SLASH
        invariant
            k <= n,
            n == b@.len(),
            skip_slashes(b@, 0) == skip_slashes(b@, k as int),
        decreases n - k,
    {
        k = k + 1;
    }
    if !check_confined(&b[k..n]) {
        return Err(ZipError::UnsafePath);
    }
    let mut j: usize = n;
    while j > 0 && b[j - 1] != SLASH
        invariant
            j <= n,
            n == b@.len(),
            last_slash_before(b@, n as int) == last_slash_before(b@, j as int),
        decreases j,
    {
        j = j - 1;
    }
    if j > 0 {
        j = j - 1;
    }
    proof {
        broadcast use encode_utf8_valid_utf8;

        if j > 0 {
            is_char_boundary_iff_not_is_continuation_byte(b@, j as int);
        }
        assert(is_char_boundary(b@, j as int));
    }
    let (parent, _) = normalized.split_at(j);
    proof {
        encode_utf8_decode_utf8(parent@);
        reveal_strlit("/");
    }
    let mut dir = root.to_owned();
    dir.append("/");
    dir.append(parent);
    let mut path = root.to_owned();
    path.append("/");
    path.append(normalized);
    Ok(EntryPath { dir, path })
}

/// Relies on normalize_path's `NormalizePath::normalize`, which resolves `.`
/// and `..` lexically, without reading the filesystem: its result depends on
/// the name alone. `confine_path` checks the result.
#[verifier::external_body]
fn normalize_name(name: &str) -> (r: String)
    ensures
        r@ == normalized_of(name@),
{
    Path::new(name).normalize().to_string_lossy().into_owned()
}

/// Where an entry named `name` is written under `root`: `root`, a slash and
/// the normalized name, which always lies strictly inside `root`; an error
/// when the normalized name is not confined.
pub fn sanitize_path(root: &str, name: &str) -> (r: Result<EntryPath, ZipError>)
    ensures
        r is Ok <==> name_is_confined(normalized_of(name@)),
        r matches Err(e) ==> e == ZipError::UnsafePath,
        r matches Ok(ep) ==> ep.path@ == output_path(root@, normalized_of(name@)),
        r matches Ok(ep) ==> ep.dir@ == output_dir(root@, normalized_of(name@)),
        r matches Ok(ep) ==> inside_root(ep.path@, root@),
{
    let normalized = normalize_name(name);
    let r = confine_path(root, normalized.as_str());
    proof {
        if r is Ok {
            let ep = r->Ok_0;
            let rest = ep.path@.subrange(root@.len() as int + 1, ep.path@.len() as int);
            assert(rest =~= normalized@);
            assert(ep.path@.subrange(0, root@.len() as int) =~= root@);
        }
    }
    r
}

} // verus!
