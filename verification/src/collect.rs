//! Selecting candidate files: a file is kept when it lies under one of the
//! album roots, lies under none of the excluded roots, and carries an
//! accepted image extension. Walking directories belongs to the
//! surrounding program; this module only decides, path by path.

use vstd::prelude::*;
use vstd::string::StringSliceAdditionalSpecFns;
use vstd::utf8::encode_utf8;

use crate::text::{lower_bytes, to_lower_bytes};

verus! {

/// Whether a path lies under a root: the root is a leading run of whole
/// path segments, the path continuing either not at all or at a segment
/// boundary.
pub open spec fn path_under(p: Seq<u8>, root: Seq<u8>) -> bool {
    &&& root.len() <= p.len()
    &&& p.take(root.len() as int) == root
    &&& (p.len() == root.len() || p[root.len() as int] == 47)
}

/// The byte views of a sequence of path strings.
pub open spec fn roots_bytes(roots: Seq<String>) -> Seq<Seq<u8>> {
    roots.map_values(|s: String| encode_utf8(s@))
}

/// Whether a path lies under any of the given roots.
pub open spec fn under_any(p: Seq<u8>, roots: Seq<Seq<u8>>) -> bool {
    exists|i: int| 0 <= i < roots.len() && path_under(p, #[trigger] roots[i])
}

/// Whether a lower-cased extension is in the accepted image set: `jpg`,
/// `jpeg` or `png`.
pub open spec fn is_image_ext(e: Seq<u8>) -> bool {
    ||| e == seq![106u8, 112u8, 103u8]
    ||| e == seq![106u8, 112u8, 101u8, 103u8]
    ||| e == seq![112u8, 110u8, 103u8]
}

/// Whether the path's final segment carries an accepted image extension:
/// the bytes after the last dot of the final segment, matched
/// case-insensitively, with a dot that neither opens the segment nor ends
/// the path's walk into another segment.
pub open spec fn accepted_extension(p: Seq<u8>) -> bool {
    exists|i: int|
        {
            &&& 0 < i < p.len()
            &&& #[trigger] p[i] == 46
            &&& p[i - 1] != 47
            &&& (forall|j: int| i < j < p.len() ==> p[j] != 46 && p[j] != 47)
            &&& is_image_ext(lower_bytes(p.subrange(i + 1, p.len() as int)))
        }
}

/// Whether a candidate file is kept: under an album root, under no
/// excluded root, and of an accepted image extension.
pub open spec fn candidate_accepted(p: Seq<u8>, albums: Seq<Seq<u8>>, excluded: Seq<Seq<u8>>) -> bool {
    under_any(p, albums) && !under_any(p, excluded) && accepted_extension(p)
}

/// The candidate files that are kept, in their given order.
pub open spec fn accepted_files(
    files: Seq<String>,
    albums: Seq<Seq<u8>>,
    excluded: Seq<Seq<u8>>,
) -> Seq<String>
    decreases files.len(),
{
    if files.len() == 0 {
        Seq::empty()
    } else {
        let rest = accepted_files(files.drop_last(), albums, excluded);
        if candidate_accepted(encode_utf8(files.last()@), albums, excluded) {
            rest.push(files.last())
        } else {
            rest
        }
    }
}

/// Whether the path lies under the given root.
fn path_under_exec(p: &[u8], root: &[u8]) -> (r: bool)
    ensures
        r == path_under(p@, root@),
{
    let rl = root.len();
    let pl = p.len();
    if rl > pl {
        return false;
    }
    let mut j: usize = 0;
    while j < rl
        invariant
            0 <= j <= rl,
            rl == root@.len(),
            pl == p@.len(),
            rl <= pl,
            forall|k: int| 0 <= k < j ==> #[trigger] p@[k] == root@[k],
        decreases rl - j,
    {
        if p[j] != root[j] {
            proof {
                assert(p@.take(rl as int)[j as int] != root@[j as int]);
            }
            return false;
        }
        j = j + 1;
    }
    proof {
        assert(p@.take(rl as int) =~= root@);
    }
    pl == rl || p[rl] == 47
}

/// Whether the path lies under any of the given roots.
fn under_any_exec(path: &String, roots: &Vec<String>) -> (r: bool)
    ensures
        r == under_any(encode_utf8(path@), roots_bytes(roots@)),
{
    let pb = path.as_str().as_bytes();
    let n = roots.len();
    let mut i: usize = 0;
    while i < n
        invariant
            0 <= i <= n,
            n == roots@.len(),
            pb@ == encode_utf8(path@),
            forall|k: int| 0 <= k < i ==> !path_under(pb@, #[trigger] roots_bytes(roots@)[k]),
        decreases n - i,
    {
        let rb = roots[i].as_str().as_bytes();
        proof {
            assert(roots_bytes(roots@)[i as int] == encode_utf8(roots@[i as int]@));
        }
        if path_under_exec(pb, rb) {
            return true;
        }
        i = i + 1;
    }
    false
}

/// Whether the path's final segment carries an accepted image extension.
fn has_accepted_extension(path: &String) -> (r: bool)
    ensures
        r == accepted_extension(encode_utf8(path@)),
{
    let b = path.as_str().as_bytes();
    let n = b.len();
    let mut k: usize = n;
    while k > 0
        invariant
            0 <= k <= n,
            n == b@.len(),
            b@ == encode_utf8(path@),
            forall|j: int| k <= j < n ==> #[trigger] b@[j] != 46 && b@[j] != 47,
        decreases k,
    {
        k = k - 1;
        let c = b[k];
        if c == 47 {
            proof {
                assert forall|i: int|
                    !({
                        &&& 0 < i < b@.len()
                        &&& #[trigger] b@[i] == 46
                        &&& b@[i - 1] != 47
                        &&& (forall|j: int| i < j < b@.len() ==> b@[j] != 46 && b@[j] != 47)
                        &&& is_image_ext(lower_bytes(b@.subrange(i + 1, b@.len() as int)))
                    }) by {
                    if k < i < b@.len() {
                        assert(b@[i] != 46);
                    } else if 0 < i < b@.len() && b@[i] == 46 {
                        assert(i < k);
                        assert(b@[k as int] == 47);
                    }
                }
            }
            return false;
        }
        if c == 46 {
            if k == 0 || b[k - 1] == 47 {
                proof {
                    assert forall|i: int|
                        !({
                            &&& 0 < i < b@.len()
                            &&& #[trigger] b@[i] == 46
                            &&& b@[i - 1] != 47
                            &&& (forall|j: int| i < j < b@.len() ==> b@[j] != 46 && b@[j] != 47)
                            &&& is_image_ext(lower_bytes(b@.subrange(i + 1, b@.len() as int)))
                        }) by {
                        if k < i < b@.len() {
                            assert(b@[i] != 46);
                        } else if 0 < i < b@.len() && b@[i] == 46 && i < k {
                            assert(b@[k as int] == 46);
                        }
                    }
                }
                return false;
            }
            let tail = slice_from(b, k + 1);
            let ext = to_lower_bytes(tail.as_slice());
            let ok = is_image_ext_exec(&ext);
            proof {
                if ok {
                    assert(b@[k as int] == 46 && b@[k as int - 1] != 47);
                } else {
                    assert forall|i: int|
                        !({
                            &&& 0 < i < b@.len()
                            &&& #[trigger] b@[i] == 46
                            &&& b@[i - 1] != 47
                            &&& (forall|j: int| i < j < b@.len() ==> b@[j] != 46 && b@[j] != 47)
                            &&& is_image_ext(lower_bytes(b@.subrange(i + 1, b@.len() as int)))
                        }) by {
                        if k < i < b@.len() {
                            assert(b@[i] != 46);
                        } else if 0 < i < b@.len() && b@[i] == 46 && i < k {
                            assert(b@[k as int] == 46);
                        }
                    }
                }
            }
            return ok;
        }
        proof {
            assert(b@[k as int] != 46 && b@[k as int] != 47);
        }
    }
    proof {
        assert forall|i: int|
            !({
                &&& 0 < i < b@.len()
                &&& #[trigger] b@[i] == 46
                &&& b@[i - 1] != 47
                &&& (forall|j: int| i < j < b@.len() ==> b@[j] != 46 && b@[j] != 47)
                &&& is_image_ext(lower_bytes(b@.subrange(i + 1, b@.len() as int)))
            }) by {
            if 0 < i < b@.len() {
                assert(b@[i] != 46);
            }
        }
    }
    false
}

/// The bytes of a slice from the given start to its end.
fn slice_from(b: &[u8], start: usize) -> (r: Vec<u8>)
    requires
        start <= b@.len(),
    ensures
        r@ == b@.subrange(start as int, b@.len() as int),
{
    let n = b.len();
    let mut out: Vec<u8> = Vec::new();
    let mut i: usize = start;
    while i < n
        invariant
            start <= i <= n,
            n == b@.len(),
            out@ == b@.subrange(start as int, i as int),
        decreases n - i,
    {
        out.push(b[i]);
        proof {
            assert(b@.subrange(start as int, i as int + 1) =~= b@.subrange(
                start as int,
                i as int,
            ).push(b@[i as int]));
        }
        i = i + 1;
    }
    out
}

/// Whether a lower-cased extension is in the accepted image set.
fn is_image_ext_exec(e: &Vec<u8>) -> (r: bool)
    ensures
        r == is_image_ext(e@),
{
    let r = (e.len() == 3 && e[0] == 106 && e[1] == 112 && e[2] == 103) || (e.len() == 4 && e[0]
        == 106 && e[1] == 112 && e[2] == 101 && e[3] == 103) || (e.len() == 3 && e[0] == 112 && e[1]
        == 110 && e[2] == 103);
    proof {
        if e@.len() == 3 {
            assert(e@ =~= seq![e@[0], e@[1], e@[2]]);
        }
        if e@.len() == 4 {
            assert(e@ =~= seq![e@[0], e@[1], e@[2], e@[3]]);
        }
    }
    r
}

/// Keeps the candidate files that lie under an album root, under no
/// excluded root, and carry an accepted image extension, in their given
/// order.
pub fn collect_files(
    files: Vec<String>,
    album_dirs: &Vec<String>,
    excluded_dirs: &Vec<String>,
) -> (r: Vec<String>)
    ensures
        r@ == accepted_files(files@, roots_bytes(album_dirs@), roots_bytes(excluded_dirs@)),
{
    let ghost albums = roots_bytes(album_dirs@);
    let ghost excluded = roots_bytes(excluded_dirs@);
    let ghost orig = files@;
    let total = files.len();
    proof {
        assert(orig.len() == total);
    }
    let mut rest = files;
    let mut out: Vec<String> = Vec::new();
    let mut i: usize = 0;
    while rest.len() > 0
        invariant
            0 <= i <= orig.len(),
            orig.len() <= usize::MAX,
            rest@ == orig.skip(i as int),
            albums == roots_bytes(album_dirs@),
            excluded == roots_bytes(excluded_dirs@),
            out@ == accepted_files(orig.take(i as int), albums, excluded),
        decreases rest@.len(),
    {
        let f = rest.remove(0);
        proof {
            assert(rest@ =~= orig.skip(i as int + 1));
            assert(f == orig[i as int]);
            assert(orig.take(i as int + 1).drop_last() =~= orig.take(i as int));
            assert(orig.take(i as int + 1).last() == orig[i as int]);
        }
        let keep = under_any_exec(&f, album_dirs) && !under_any_exec(&f, excluded_dirs)
            && has_accepted_extension(&f);
        if keep {
            out.push(f);
        }
        i = i + 1;
    }
    proof {
        assert(orig.take(i as int) =~= orig);
    }
    out
}

} // verus!
