//! The relational catalog: photo records, a tag tree, photo-tag
//! associations, per-tag counts, and a filename index that is kept exactly
//! consistent with the photo records by every write path.
//!
//! Uniqueness of photo paths and content hashes and of tag names, the
//! referential rules (cascading association deletion, parent nulling), and
//! the one-index-entry-per-photo rule are stated in `Catalog::wf`, which
//! every operation preserves.

use vstd::prelude::*;
use vstd::string::StringSliceAdditionalSpecFns;
use vstd::utf8::encode_utf8;

use crate::errors::MeshError;
use crate::text::{lower_byte, lower_byte_of, lower_bytes};

verus! {

/// One indexed file: a unique path and content hash, the display
/// filename, pixel dimensions, byte size, and timestamps.
pub struct PhotoRecord {
    pub id: u64,
    pub path: String,
    pub file_hash: String,
    pub filename: String,
    pub width: u32,
    pub height: u32,
    pub size: u64,
    pub created_at: i64,
    pub modified_at: i64,
}

/// One tag: a unique name, an optional parent tag, and a display color.
pub struct TagRecord {
    pub id: u64,
    pub name: String,
    pub parent_id: Option<u64>,
    pub tag_color_hex: String,
}

/// Whether some photo in the sequence has the given path.
pub open spec fn has_photo_with_path(photos: Seq<PhotoRecord>, path: Seq<char>) -> bool {
    exists|i: int| 0 <= i < photos.len() && photos[i].path@ == path
}

/// Whether some photo in the sequence has the given content hash.
pub open spec fn has_photo_with_hash(photos: Seq<PhotoRecord>, hash: Seq<char>) -> bool {
    exists|i: int| 0 <= i < photos.len() && photos[i].file_hash@ == hash
}

/// Whether some photo in the sequence has the given id.
pub open spec fn photo_id_present(photos: Seq<PhotoRecord>, id: u64) -> bool {
    exists|i: int| 0 <= i < photos.len() && photos[i].id == id
}

/// Whether some tag in the sequence has the given id.
pub open spec fn tag_id_present(tags: Seq<TagRecord>, id: u64) -> bool {
    exists|i: int| 0 <= i < tags.len() && tags[i].id == id
}

/// Whether some tag in the sequence has the given name.
pub open spec fn tag_name_present(tags: Seq<TagRecord>, name: Seq<char>) -> bool {
    exists|i: int| 0 <= i < tags.len() && tags[i].name@ == name
}

/// Whether the given photo-tag association is present.
pub open spec fn link_present(links: Seq<(u64, u64)>, photo_id: u64, tag_id: u64) -> bool {
    exists|i: int| 0 <= i < links.len() && links[i] == (photo_id, tag_id)
}

/// How many associations carry the given tag.
pub open spec fn count_links(links: Seq<(u64, u64)>, tag_id: u64) -> nat
    decreases links.len(),
{
    if links.len() == 0 {
        0
    } else {
        count_links(links.drop_last(), tag_id) + if links.last().1 == tag_id {
            1nat
        } else {
            0nat
        }
    }
}

/// The associations that survive deleting the given photo.
pub open spec fn links_without_photo(links: Seq<(u64, u64)>, photo_id: u64) -> Seq<(u64, u64)>
    decreases links.len(),
{
    if links.len() == 0 {
        Seq::empty()
    } else {
        let rest = links_without_photo(links.drop_last(), photo_id);
        if links.last().0 == photo_id {
            rest
        } else {
            rest.push(links.last())
        }
    }
}

/// The associations that survive deleting the given tag.
pub open spec fn links_without_tag(links: Seq<(u64, u64)>, tag_id: u64) -> Seq<(u64, u64)>
    decreases links.len(),
{
    if links.len() == 0 {
        Seq::empty()
    } else {
        let rest = links_without_tag(links.drop_last(), tag_id);
        if links.last().1 == tag_id {
            rest
        } else {
            rest.push(links.last())
        }
    }
}

/// The associations that survive removing the given pair.
pub open spec fn links_without_pair(links: Seq<(u64, u64)>, photo_id: u64, tag_id: u64) -> Seq<
    (u64, u64),
>
    decreases links.len(),
{
    if links.len() == 0 {
        Seq::empty()
    } else {
        let rest = links_without_pair(links.drop_last(), photo_id, tag_id);
        if links.last() == (photo_id, tag_id) {
            rest
        } else {
            rest.push(links.last())
        }
    }
}

/// What survives deleting a photo: exactly the distinct associations of
/// other photos, each kept intact.
proof fn lemma_links_without_photo(links: Seq<(u64, u64)>, photo_id: u64)
    requires
        forall|i: int, j: int|
            0 <= i < j < links.len() ==> #[trigger] links[i] != #[trigger] links[j],
    ensures
        forall|i: int|
            0 <= i < links_without_photo(links, photo_id).len() ==> (#[trigger] links_without_photo(
                links,
                photo_id,
            )[i]).0 != photo_id && links.contains(links_without_photo(links, photo_id)[i]),
        forall|k: int|
            0 <= k < links.len() && (#[trigger] links[k]).0 != photo_id ==> links_without_photo(
                links,
                photo_id,
            ).contains(links[k]),
        forall|i: int, j: int|
            0 <= i < j < links_without_photo(links, photo_id).len()
                ==> #[trigger] links_without_photo(links, photo_id)[i]
                != #[trigger] links_without_photo(links, photo_id)[j],
    decreases links.len(),
{
    let res = links_without_photo(links, photo_id);
    if links.len() > 0 {
        let dl = links.drop_last();
        let last = links.last();
        assert forall|i: int, j: int| 0 <= i < j < dl.len() implies #[trigger] dl[i]
            != #[trigger] dl[j] by {
            assert(dl[i] == links[i] && dl[j] == links[j]);
        }
        lemma_links_without_photo(dl, photo_id);
        let rest = links_without_photo(dl, photo_id);
        assert forall|i: int| 0 <= i < res.len() implies (#[trigger] res[i]).0 != photo_id
            && links.contains(res[i]) by {
            if i < rest.len() {
                assert(res[i] == rest[i]);
                let w = choose|w: int| 0 <= w < dl.len() && #[trigger] dl[w] == rest[i];
                assert(links[w] == rest[i]);
            } else {
                assert(res[i] == last);
                assert(links[links.len() - 1] == last);
            }
        }
        assert forall|k: int|
            0 <= k < links.len() && (#[trigger] links[k]).0 != photo_id implies res.contains(
            links[k],
        ) by {
            if k < links.len() - 1 {
                assert(dl[k] == links[k]);
                assert(rest.contains(links[k]));
                let w = choose|w: int| 0 <= w < rest.len() && #[trigger] rest[w] == links[k];
                assert(res[w] == links[k]);
            } else {
                assert(res[res.len() - 1] == links[k]);
            }
        }
        assert forall|i: int, j: int| 0 <= i < j < res.len() implies #[trigger] res[i]
            != #[trigger] res[j] by {
            if j < rest.len() {
                assert(res[i] == rest[i] && res[j] == rest[j]);
            } else {
                assert(res[i] == rest[i] && res[j] == last);
                assert(dl.contains(rest[i]));
                let w = choose|w: int| 0 <= w < dl.len() && #[trigger] dl[w] == rest[i];
                assert(links[w] == rest[i]);
                assert(links[w] != links[links.len() - 1]);
            }
        }
    }
}

/// What survives deleting a tag: exactly the distinct associations of
/// other tags, each kept intact.
proof fn lemma_links_without_tag(links: Seq<(u64, u64)>, tag_id: u64)
    requires
        forall|i: int, j: int|
            0 <= i < j < links.len() ==> #[trigger] links[i] != #[trigger] links[j],
    ensures
        forall|i: int|
            0 <= i < links_without_tag(links, tag_id).len() ==> (#[trigger] links_without_tag(
                links,
                tag_id,
            )[i]).1 != tag_id && links.contains(links_without_tag(links, tag_id)[i]),
        forall|k: int|
            0 <= k < links.len() && (#[trigger] links[k]).1 != tag_id ==> links_without_tag(
                links,
                tag_id,
            ).contains(links[k]),
        forall|i: int, j: int|
            0 <= i < j < links_without_tag(links, tag_id).len() ==> #[trigger] links_without_tag(
                links,
                tag_id,
            )[i] != #[trigger] links_without_tag(links, tag_id)[j],
    decreases links.len(),
{
    let res = links_without_tag(links, tag_id);
    if links.len() > 0 {
        let dl = links.drop_last();
        let last = links.last();
        assert forall|i: int, j: int| 0 <= i < j < dl.len() implies #[trigger] dl[i]
            != #[trigger] dl[j] by {
            assert(dl[i] == links[i] && dl[j] == links[j]);
        }
        lemma_links_without_tag(dl, tag_id);
        let rest = links_without_tag(dl, tag_id);
        assert forall|i: int| 0 <= i < res.len() implies (#[trigger] res[i]).1 != tag_id
            && links.contains(res[i]) by {
            if i < rest.len() {
                assert(res[i] == rest[i]);
                let w = choose|w: int| 0 <= w < dl.len() && #[trigger] dl[w] == rest[i];
                assert(links[w] == rest[i]);
            } else {
                assert(res[i] == last);
                assert(links[links.len() - 1] == last);
            }
        }
        assert forall|k: int|
            0 <= k < links.len() && (#[trigger] links[k]).1 != tag_id implies res.contains(
            links[k],
        ) by {
            if k < links.len() - 1 {
                assert(dl[k] == links[k]);
                assert(rest.contains(links[k]));
                let w = choose|w: int| 0 <= w < rest.len() && #[trigger] rest[w] == links[k];
                assert(res[w] == links[k]);
            } else {
                assert(res[res.len() - 1] == links[k]);
            }
        }
        assert forall|i: int, j: int| 0 <= i < j < res.len() implies #[trigger] res[i]
            != #[trigger] res[j] by {
            if j < rest.len() {
                assert(res[i] == rest[i] && res[j] == rest[j]);
            } else {
                assert(res[i] == rest[i] && res[j] == last);
                assert(dl.contains(rest[i]));
                let w = choose|w: int| 0 <= w < dl.len() && #[trigger] dl[w] == rest[i];
                assert(links[w] == rest[i]);
                assert(links[w] != links[links.len() - 1]);
            }
        }
    }
}

/// What survives removing one pair: exactly the distinct other
/// associations, each kept intact.
proof fn lemma_links_without_pair(links: Seq<(u64, u64)>, photo_id: u64, tag_id: u64)
    requires
        forall|i: int, j: int|
            0 <= i < j < links.len() ==> #[trigger] links[i] != #[trigger] links[j],
    ensures
        forall|i: int|
            0 <= i < links_without_pair(links, photo_id, tag_id).len() ==> (
            #[trigger] links_without_pair(links, photo_id, tag_id)[i]) != (photo_id, tag_id)
                && links.contains(links_without_pair(links, photo_id, tag_id)[i]),
        forall|k: int|
            0 <= k < links.len() && (#[trigger] links[k]) != (photo_id, tag_id)
                ==> links_without_pair(links, photo_id, tag_id).contains(links[k]),
        forall|i: int, j: int|
            0 <= i < j < links_without_pair(links, photo_id, tag_id).len()
                ==> #[trigger] links_without_pair(links, photo_id, tag_id)[i]
                != #[trigger] links_without_pair(links, photo_id, tag_id)[j],
    decreases links.len(),
{
    let res = links_without_pair(links, photo_id, tag_id);
    if links.len() > 0 {
        let dl = links.drop_last();
        let last = links.last();
        assert forall|i: int, j: int| 0 <= i < j < dl.len() implies #[trigger] dl[i]
            != #[trigger] dl[j] by {
            assert(dl[i] == links[i] && dl[j] == links[j]);
        }
        lemma_links_without_pair(dl, photo_id, tag_id);
        let rest = links_without_pair(dl, photo_id, tag_id);
        assert forall|i: int| 0 <= i < res.len() implies (#[trigger] res[i]) != (photo_id, tag_id)
            && links.contains(res[i]) by {
            if i < rest.len() {
                assert(res[i] == rest[i]);
                let w = choose|w: int| 0 <= w < dl.len() && #[trigger] dl[w] == rest[i];
                assert(links[w] == rest[i]);
            } else {
                assert(res[i] == last);
                assert(links[links.len() - 1] == last);
            }
        }
        assert forall|k: int|
            0 <= k < links.len() && (#[trigger] links[k]) != (photo_id, tag_id)
            implies res.contains(links[k]) by {
            if k < links.len() - 1 {
                assert(dl[k] == links[k]);
                assert(rest.contains(links[k]));
                let w = choose|w: int| 0 <= w < rest.len() && #[trigger] rest[w] == links[k];
                assert(res[w] == links[k]);
            } else {
                assert(res[res.len() - 1] == links[k]);
            }
        }
        assert forall|i: int, j: int| 0 <= i < j < res.len() implies #[trigger] res[i]
            != #[trigger] res[j] by {
            if j < rest.len() {
                assert(res[i] == rest[i] && res[j] == rest[j]);
            } else {
                assert(res[i] == rest[i] && res[j] == last);
                assert(dl.contains(rest[i]));
                let w = choose|w: int| 0 <= w < dl.len() && #[trigger] dl[w] == rest[i];
                assert(links[w] == rest[i]);
                assert(links[w] != links[links.len() - 1]);
            }
        }
    }
}

/// No association of an absent tag exists, so its count is zero.
proof fn lemma_count_links_absent(links: Seq<(u64, u64)>, tag_id: u64)
    requires
        forall|i: int| 0 <= i < links.len() ==> (#[trigger] links[i]).1 != tag_id,
    ensures
        count_links(links, tag_id) == 0,
    decreases links.len(),
{
    if links.len() > 0 {
        let dl = links.drop_last();
        assert forall|i: int| 0 <= i < dl.len() implies (#[trigger] dl[i]).1 != tag_id by {
            assert(dl[i] == links[i]);
        }
        lemma_count_links_absent(dl, tag_id);
        assert(links.last() == links[links.len() - 1]);
    }
}

/// When photo ids are unchanged pointwise, every association that
/// referenced an existing photo still does.
proof fn lemma_same_ids_keep_links_valid(
    old_photos: Seq<PhotoRecord>,
    new_photos: Seq<PhotoRecord>,
    links: Seq<(u64, u64)>,
    tags: Seq<TagRecord>,
)
    requires
        new_photos.len() == old_photos.len(),
        forall|i: int| 0 <= i < old_photos.len() ==> #[trigger] new_photos[i].id == old_photos[i].id,
        forall|k: int|
            0 <= k < links.len() ==> photo_id_present(old_photos, (#[trigger] links[k]).0)
                && tag_id_present(tags, links[k].1),
    ensures
        forall|k: int|
            0 <= k < links.len() ==> photo_id_present(new_photos, (#[trigger] links[k]).0)
                && tag_id_present(tags, links[k].1),
{
    assert forall|k: int| 0 <= k < links.len() implies photo_id_present(
        new_photos,
        (#[trigger] links[k]).0,
    ) && tag_id_present(tags, links[k].1) by {
        let w = choose|w: int| 0 <= w < old_photos.len() && #[trigger] old_photos[w].id == links[k].0;
        assert(new_photos[w].id == links[k].0);
    }
}

/// Counts the given tag's associations.
fn recount(links: &Vec<(u64, u64)>, tag_id: u64) -> (r: u64)
    ensures
        r == count_links(links@, tag_id),
{
    let n = links.len();
    let mut c: u64 = 0;
    let mut i: usize = 0;
    while i < n
        invariant
            0 <= i <= n,
            n == links@.len(),
            c == count_links(links@.take(i as int), tag_id),
            c <= i,
        decreases n - i,
    {
        proof {
            assert(links@.take(i as int + 1).drop_last() =~= links@.take(i as int));
            assert(links@.take(i as int + 1).last() == links@[i as int]);
        }
        if links[i].1 == tag_id {
            c = c + 1;
        }
        i = i + 1;
    }
    proof {
        assert(links@.take(n as int) =~= links@);
    }
    c
}

/// One count per tag over the given associations.
fn counts_for(tags: &Vec<TagRecord>, links: &Vec<(u64, u64)>) -> (r: Vec<u64>)
    ensures
        r@.len() == tags@.len(),
        forall|i: int|
            0 <= i < tags@.len() ==> #[trigger] r@[i] == count_links(links@, tags@[i].id),
{
    let n = tags.len();
    let mut out: Vec<u64> = Vec::new();
    let mut i: usize = 0;
    while i < n
        invariant
            0 <= i <= n,
            n == tags@.len(),
            out@.len() == i,
            forall|j: int|
                0 <= j < i ==> #[trigger] out@[j] == count_links(links@, tags@[j].id),
        decreases n - i,
    {
        let c = recount(links, tags[i].id);
        out.push(c);
        i = i + 1;
    }
    out
}

/// Finds the index of the photo with the given id.
fn photo_index(photos: &Vec<PhotoRecord>, photo_id: u64) -> (r: Option<usize>)
    ensures
        r matches Some(i) ==> 0 <= i < photos@.len() && photos@[i as int].id == photo_id,
        r is None <==> !photo_id_present(photos@, photo_id),
{
    let n = photos.len();
    let mut i: usize = 0;
    while i < n
        invariant
            0 <= i <= n,
            n == photos@.len(),
            forall|j: int| 0 <= j < i ==> #[trigger] photos@[j].id != photo_id,
        decreases n - i,
    {
        if photos[i].id == photo_id {
            return Some(i);
        }
        i = i + 1;
    }
    None
}

/// Finds the index of the tag with the given id.
fn tag_index(tags: &Vec<TagRecord>, tag_id: u64) -> (r: Option<usize>)
    ensures
        r matches Some(i) ==> 0 <= i < tags@.len() && tags@[i as int].id == tag_id,
        r is None <==> !tag_id_present(tags@, tag_id),
{
    let n = tags.len();
    let mut i: usize = 0;
    while i < n
        invariant
            0 <= i <= n,
            n == tags@.len(),
            forall|j: int| 0 <= j < i ==> #[trigger] tags@[j].id != tag_id,
        decreases n - i,
    {
        if tags[i].id == tag_id {
            return Some(i);
        }
        i = i + 1;
    }
    None
}

/// The associations not referencing the given photo.
fn links_excluding_photo(links: &Vec<(u64, u64)>, photo_id: u64) -> (r: Vec<(u64, u64)>)
    ensures
        r@ == links_without_photo(links@, photo_id),
{
    let n = links.len();
    let mut kept: Vec<(u64, u64)> = Vec::new();
    let mut i: usize = 0;
    while i < n
        invariant
            0 <= i <= n,
            n == links@.len(),
            kept@ == links_without_photo(links@.take(i as int), photo_id),
        decreases n - i,
    {
        proof {
            assert(links@.take(i as int + 1).drop_last() =~= links@.take(i as int));
            assert(links@.take(i as int + 1).last() == links@[i as int]);
        }
        let l = links[i];
        if l.0 != photo_id {
            kept.push(l);
        }
        i = i + 1;
    }
    proof {
        assert(links@.take(n as int) =~= links@);
    }
    kept
}

/// The associations not referencing the given tag.
fn links_excluding_tag(links: &Vec<(u64, u64)>, tag_id: u64) -> (r: Vec<(u64, u64)>)
    ensures
        r@ == links_without_tag(links@, tag_id),
{
    let n = links.len();
    let mut kept: Vec<(u64, u64)> = Vec::new();
    let mut i: usize = 0;
    while i < n
        invariant
            0 <= i <= n,
            n == links@.len(),
            kept@ == links_without_tag(links@.take(i as int), tag_id),
        decreases n - i,
    {
        proof {
            assert(links@.take(i as int + 1).drop_last() =~= links@.take(i as int));
            assert(links@.take(i as int + 1).last() == links@[i as int]);
        }
        let l = links[i];
        if l.1 != tag_id {
            kept.push(l);
        }
        i = i + 1;
    }
    proof {
        assert(links@.take(n as int) =~= links@);
    }
    kept
}

/// The associations other than the given pair.
fn links_excluding_pair(links: &Vec<(u64, u64)>, photo_id: u64, tag_id: u64) -> (r: Vec<
    (u64, u64),
>)
    ensures
        r@ == links_without_pair(links@, photo_id, tag_id),
{
    let n = links.len();
    let mut kept: Vec<(u64, u64)> = Vec::new();
    let mut i: usize = 0;
    while i < n
        invariant
            0 <= i <= n,
            n == links@.len(),
            kept@ == links_without_pair(links@.take(i as int), photo_id, tag_id),
        decreases n - i,
    {
        proof {
            assert(links@.take(i as int + 1).drop_last() =~= links@.take(i as int));
            assert(links@.take(i as int + 1).last() == links@[i as int]);
        }
        let l = links[i];
        if !(l.0 == photo_id && l.1 == tag_id) {
            kept.push(l);
        }
        i = i + 1;
    }
    proof {
        assert(links@.take(n as int) =~= links@);
    }
    kept
}

/// Removing one photo, its index entry and its associations preserves
/// every well-formedness clause that does not mention counts.
proof fn proof_delete_photo_wf(
    op: Seq<PhotoRecord>,
    np: Seq<PhotoRecord>,
    ofts: Seq<(u64, String)>,
    nfts: Seq<(u64, String)>,
    ol: Seq<(u64, u64)>,
    nl: Seq<(u64, u64)>,
    tags: Seq<TagRecord>,
    idx: int,
    photo_id: u64,
)
    requires
        0 <= idx < op.len(),
        op[idx].id == photo_id,
        np == op.remove(idx),
        ofts.len() == op.len(),
        forall|i: int|
            0 <= i < op.len() ==> (#[trigger] ofts[i]).0 == op[i].id && ofts[i].1@
                == op[i].filename@,
        nfts == ofts.remove(idx),
        nl == links_without_photo(ol, photo_id),
        forall|i: int, j: int| 0 <= i < j < op.len() ==> #[trigger] op[i].id != #[trigger] op[j].id,
        forall|i: int, j: int|
            0 <= i < j < op.len() ==> #[trigger] op[i].path@ != #[trigger] op[j].path@,
        forall|i: int, j: int|
            0 <= i < j < op.len() ==> #[trigger] op[i].file_hash@ != #[trigger] op[j].file_hash@,
        forall|i: int, j: int| 0 <= i < j < ol.len() ==> #[trigger] ol[i] != #[trigger] ol[j],
        forall|i: int|
            0 <= i < ol.len() ==> photo_id_present(op, (#[trigger] ol[i]).0) && tag_id_present(
                tags,
                ol[i].1,
            ),
    ensures
        np.len() == op.len() - 1,
        forall|i: int, j: int| 0 <= i < j < np.len() ==> #[trigger] np[i].id != #[trigger] np[j].id,
        forall|i: int, j: int|
            0 <= i < j < np.len() ==> #[trigger] np[i].path@ != #[trigger] np[j].path@,
        forall|i: int, j: int|
            0 <= i < j < np.len() ==> #[trigger] np[i].file_hash@ != #[trigger] np[j].file_hash@,
        forall|i: int| 0 <= i < np.len() ==> exists|w: int| 0 <= w < op.len() && #[trigger] np[i] == op[w],
        nfts.len() == np.len(),
        forall|i: int|
            0 <= i < np.len() ==> (#[trigger] nfts[i]).0 == np[i].id && nfts[i].1@
                == np[i].filename@,
        forall|i: int, j: int| 0 <= i < j < nl.len() ==> #[trigger] nl[i] != #[trigger] nl[j],
        forall|i: int|
            0 <= i < nl.len() ==> photo_id_present(np, (#[trigger] nl[i]).0) && tag_id_present(
                tags,
                nl[i].1,
            ),
{
    op.remove_ensures(idx);
    ofts.remove_ensures(idx);
    lemma_links_without_photo(ol, photo_id);
    assert forall|i: int| 0 <= i < np.len() implies exists|w: int|
        0 <= w < op.len() && #[trigger] np[i] == op[w] by {
        if i < idx {
            assert(np[i] == op[i]);
        } else {
            assert(np[i] == op[i + 1]);
        }
    }
    assert forall|i: int, j: int| 0 <= i < j < np.len() implies #[trigger] np[i].id
        != #[trigger] np[j].id by {
        let a = if i < idx { i } else { i + 1 };
        let b = if j < idx { j } else { j + 1 };
        assert(np[i] == op[a] && np[j] == op[b]);
    }
    assert forall|i: int, j: int| 0 <= i < j < np.len() implies #[trigger] np[i].path@
        != #[trigger] np[j].path@ by {
        let a = if i < idx { i } else { i + 1 };
        let b = if j < idx { j } else { j + 1 };
        assert(np[i] == op[a] && np[j] == op[b]);
    }
    assert forall|i: int, j: int| 0 <= i < j < np.len() implies #[trigger] np[i].file_hash@
        != #[trigger] np[j].file_hash@ by {
        let a = if i < idx { i } else { i + 1 };
        let b = if j < idx { j } else { j + 1 };
        assert(np[i] == op[a] && np[j] == op[b]);
    }
    assert forall|i: int| 0 <= i < np.len() implies (#[trigger] nfts[i]).0 == np[i].id
        && nfts[i].1@ == np[i].filename@ by {
        let a = if i < idx { i } else { i + 1 };
        assert(np[i] == op[a] && nfts[i] == ofts[a]);
    }
    assert forall|i: int| 0 <= i < nl.len() implies photo_id_present(np, (#[trigger] nl[i]).0)
        && tag_id_present(tags, nl[i].1) by {
        assert(nl[i].0 != photo_id && ol.contains(nl[i]));
        let k = choose|k: int| 0 <= k < ol.len() && #[trigger] ol[k] == nl[i];
        assert(photo_id_present(op, ol[k].0));
        let w = choose|w: int| 0 <= w < op.len() && #[trigger] op[w].id == ol[k].0;
        assert(op[w].id != photo_id);
        assert(w != idx);
        if w < idx {
            assert(np[w] == op[w]);
        } else {
            assert(np[w - 1] == op[w]);
        }
    }
}

/// A tag after another tag's deletion: a parent reference to the deleted
/// tag is nulled; everything else is kept.
pub open spec fn nulled_tag(t: TagRecord, dead: u64) -> TagRecord {
    TagRecord {
        parent_id: if t.parent_id == Some(dead) {
            None
        } else {
            t.parent_id
        },
        ..t
    }
}

/// The tags that survive deleting the given tag, in order, each with a
/// parent reference to it nulled.
pub open spec fn tags_after_delete(tags: Seq<TagRecord>, dead: u64) -> Seq<TagRecord>
    decreases tags.len(),
{
    if tags.len() == 0 {
        Seq::empty()
    } else {
        let rest = tags_after_delete(tags.drop_last(), dead);
        if tags.last().id == dead {
            rest
        } else {
            rest.push(nulled_tag(tags.last(), dead))
        }
    }
}

/// When no tag is the deleted one, deletion only nulls parents, pointwise.
proof fn lemma_tags_after_delete_nodead(tags: Seq<TagRecord>, dead: u64)
    requires
        forall|i: int| 0 <= i < tags.len() ==> #[trigger] tags[i].id != dead,
    ensures
        tags_after_delete(tags, dead).len() == tags.len(),
        forall|i: int|
            0 <= i < tags.len() ==> #[trigger] tags_after_delete(tags, dead)[i] == nulled_tag(
                tags[i],
                dead,
            ),
    decreases tags.len(),
{
    if tags.len() > 0 {
        let dl = tags.drop_last();
        assert forall|i: int| 0 <= i < dl.len() implies #[trigger] dl[i].id != dead by {
            assert(dl[i] == tags[i]);
        }
        lemma_tags_after_delete_nodead(dl, dead);
        assert forall|i: int|
            0 <= i < tags.len() implies #[trigger] tags_after_delete(tags, dead)[i] == nulled_tag(
            tags[i],
            dead,
        ) by {
            if i < tags.len() - 1 {
                assert(tags_after_delete(tags, dead)[i] == tags_after_delete(dl, dead)[i]);
                assert(dl[i] == tags[i]);
            }
        }
    }
}

/// Deleting the one tag with the dead id removes exactly that record and
/// nulls parent references, pointwise.
proof fn lemma_tags_after_delete_pointwise(tags: Seq<TagRecord>, dead: u64, idx: int)
    requires
        0 <= idx < tags.len(),
        tags[idx].id == dead,
        forall|i: int| 0 <= i < tags.len() && i != idx ==> #[trigger] tags[i].id != dead,
    ensures
        tags_after_delete(tags, dead).len() == tags.len() - 1,
        forall|i: int|
            0 <= i < tags.len() - 1 ==> #[trigger] tags_after_delete(tags, dead)[i] == nulled_tag(
                tags[if i < idx {
                    i
                } else {
                    i + 1
                }],
                dead,
            ),
    decreases tags.len(),
{
    let dl = tags.drop_last();
    let res = tags_after_delete(tags, dead);
    if idx == tags.len() - 1 {
        assert forall|i: int| 0 <= i < dl.len() implies #[trigger] dl[i].id != dead by {
            assert(dl[i] == tags[i]);
        }
        lemma_tags_after_delete_nodead(dl, dead);
        assert forall|i: int|
            0 <= i < tags.len() - 1 implies #[trigger] res[i] == nulled_tag(
            tags[if i < idx {
                i
            } else {
                i + 1
            }],
            dead,
        ) by {
            assert(res[i] == tags_after_delete(dl, dead)[i]);
            assert(dl[i] == tags[i]);
        }
    } else {
        assert forall|i: int| 0 <= i < dl.len() && i != idx implies #[trigger] dl[i].id != dead by {
            assert(dl[i] == tags[i]);
        }
        assert(dl[idx] == tags[idx]);
        lemma_tags_after_delete_pointwise(dl, dead, idx);
        let rest = tags_after_delete(dl, dead);
        assert(tags.last().id != dead);
        assert(res == rest.push(nulled_tag(tags.last(), dead)));
        assert forall|i: int|
            0 <= i < tags.len() - 1 implies #[trigger] res[i] == nulled_tag(
            tags[if i < idx {
                i
            } else {
                i + 1
            }],
            dead,
        ) by {
            if i < tags.len() - 2 {
                assert(res[i] == rest[i]);
                let w = if i < idx {
                    i
                } else {
                    i + 1
                };
                assert(dl[w] == tags[w]);
            } else {
                assert(res[i] == nulled_tag(tags.last(), dead));
            }
        }
    }
}

/// Whether a byte can be part of a filename token: an ASCII letter or
/// digit.
pub open spec fn is_word_byte(b: u8) -> bool {
    (48 <= b && b <= 57) || (65 <= b && b <= 90) || (97 <= b && b <= 122)
}

/// Whether the query occurs in the filename bytes at position `i` as a
/// whole token: the bytes match case-insensitively, and the occurrence is
/// delimited by non-token bytes or by the ends of the name.
pub open spec fn match_at(f: Seq<u8>, q: Seq<u8>, i: int) -> bool {
    &&& 0 <= i
    &&& i + q.len() <= f.len()
    &&& lower_bytes(f.subrange(i, i + q.len())) == lower_bytes(q)
    &&& (i == 0 || !is_word_byte(f[i - 1]))
    &&& (i + q.len() == f.len() || !is_word_byte(f[i + q.len()]))
}

/// Whether the query occurs somewhere in the filename bytes as a whole
/// token.
pub open spec fn word_match(f: Seq<u8>, q: Seq<u8>) -> bool {
    exists|i: int| #[trigger] match_at(f, q, i)
}

/// Whether a query string is a single well-formed filename token:
/// nonempty, token bytes only. Any other query matches nothing.
pub open spec fn valid_query(q: Seq<u8>) -> bool {
    q.len() > 0 && forall|i: int| 0 <= i < q.len() ==> is_word_byte(#[trigger] q[i])
}

/// Whether a photo with the given filename matches the query.
pub open spec fn filename_matches(filename: Seq<char>, q: Seq<u8>) -> bool {
    valid_query(q) && word_match(encode_utf8(filename), q)
}

/// The ids of the index entries whose filename matches the query, in
/// catalog order.
pub open spec fn matching_ids(entries: Seq<(u64, String)>, q: Seq<u8>) -> Seq<u64>
    decreases entries.len(),
{
    if entries.len() == 0 {
        Seq::empty()
    } else {
        let rest = matching_ids(entries.drop_last(), q);
        if filename_matches(entries.last().1@, q) {
            rest.push(entries.last().0)
        } else {
            rest
        }
    }
}

/// Whether some index entry carries the given id and a filename that
/// matches the query.
pub open spec fn some_entry_matches(entries: Seq<(u64, String)>, q: Seq<u8>, id: u64) -> bool {
    exists|i: int|
        0 <= i < entries.len() && (#[trigger] entries[i]).0 == id && filename_matches(
            entries[i].1@,
            q,
        )
}

/// A search returns an id exactly for the index entries whose filename
/// matches the query: every returned id comes from a matching entry, and
/// every matching entry's id is returned.
pub proof fn lemma_matching_ids(entries: Seq<(u64, String)>, q: Seq<u8>)
    ensures
        forall|k: int| #![trigger matching_ids(entries, q)[k]]
            0 <= k < matching_ids(entries, q).len() ==> some_entry_matches(
                entries,
                q,
                matching_ids(entries, q)[k],
            ),
        forall|i: int|
            0 <= i < entries.len() && filename_matches((#[trigger] entries[i]).1@, q)
                ==> matching_ids(entries, q).contains(entries[i].0),
    decreases entries.len(),
{
    let res = matching_ids(entries, q);
    if entries.len() > 0 {
        let dl = entries.drop_last();
        lemma_matching_ids(dl, q);
        let rest = matching_ids(dl, q);
        assert forall|k: int| #![trigger res[k]] 0 <= k < res.len() implies some_entry_matches(
            entries,
            q,
            res[k],
        ) by {
            if k < rest.len() {
                assert(res[k] == rest[k]);
                assert(some_entry_matches(dl, q, rest[k]));
                let w = choose|w: int|
                    0 <= w < dl.len() && (#[trigger] dl[w]).0 == rest[k] && filename_matches(
                        dl[w].1@,
                        q,
                    );
                assert(entries[w] == dl[w]);
            } else {
                assert(res[k] == entries.last().0);
                assert(entries[entries.len() - 1] == entries.last());
            }
        }
        assert forall|i: int|
            0 <= i < entries.len() && filename_matches((#[trigger] entries[i]).1@, q)
            implies res.contains(entries[i].0) by {
            if i < entries.len() - 1 {
                assert(dl[i] == entries[i]);
                assert(rest.contains(dl[i].0));
                let w = choose|w: int| 0 <= w < rest.len() && #[trigger] rest[w] == dl[i].0;
                assert(res[w] == entries[i].0);
            } else {
                assert(res[res.len() - 1] == entries[i].0);
            }
        }
    }
}

/// Whether some photo record carries the given id and a filename that
/// matches the query.
pub open spec fn some_photo_matches(photos: Seq<PhotoRecord>, q: Seq<u8>, id: u64) -> bool {
    exists|i: int|
        0 <= i < photos.len() && (#[trigger] photos[i]).id == id && filename_matches(
            photos[i].filename@,
            q,
        )
}

/// In a well-formed catalog the filename search is decided by the photo
/// records themselves: it returns an id exactly for the photos whose
/// current filename matches the query — never for a deleted photo, and
/// always against the filename as it stands after any rename.
pub proof fn lemma_search_serves_current_filenames(c: Catalog, q: Seq<u8>)
    requires
        c.wf(),
    ensures
        forall|k: int| #![trigger matching_ids(c.fts(), q)[k]]
            0 <= k < matching_ids(c.fts(), q).len() ==> some_photo_matches(
                c.photos(),
                q,
                matching_ids(c.fts(), q)[k],
            ),
        forall|i: int|
            0 <= i < c.photos().len() && filename_matches(
                (#[trigger] c.photos()[i]).filename@,
                q,
            ) ==> matching_ids(c.fts(), q).contains(c.photos()[i].id),
{
    lemma_matching_ids(c.fts(), q);
    let res = matching_ids(c.fts(), q);
    assert forall|k: int| #![trigger res[k]] 0 <= k < res.len() implies some_photo_matches(
        c.photos(),
        q,
        res[k],
    ) by {
        assert(some_entry_matches(c.fts(), q, res[k]));
        let w = choose|w: int|
            0 <= w < c.fts().len() && (#[trigger] c.fts()[w]).0 == res[k] && filename_matches(
                c.fts()[w].1@,
                q,
            );
        assert(c.photos()[w].id == res[k]);
        assert(c.photos()[w].filename@ == c.fts()[w].1@);
    }
    assert forall|i: int|
        0 <= i < c.photos().len() && filename_matches((#[trigger] c.photos()[i]).filename@, q)
        implies res.contains(c.photos()[i].id) by {
        assert((c.fts()[i]).0 == c.photos()[i].id);
        assert(c.fts()[i].1@ == c.photos()[i].filename@);
        assert(filename_matches(c.fts()[i].1@, q));
    }
}

/// An ill-formed query matches nothing.
proof fn lemma_matching_ids_invalid(entries: Seq<(u64, String)>, q: Seq<u8>)
    requires
        !valid_query(q),
    ensures
        matching_ids(entries, q) == Seq::<u64>::empty(),
    decreases entries.len(),
{
    if entries.len() > 0 {
        lemma_matching_ids_invalid(entries.drop_last(), q);
    }
}

/// Whether the query matches the filename bytes at the given position,
/// byte for byte and case-insensitively.
fn bytes_match_at(f: &[u8], q: &[u8], i: usize) -> (r: bool)
    requires
        i + q@.len() <= f@.len(),
    ensures
        r == (lower_bytes(f@.subrange(i as int, i as int + q@.len() as int)) == lower_bytes(q@)),
{
    let ghost sub = f@.subrange(i as int, i as int + q@.len() as int);
    let fl = f.len();
    let n = q.len();
    let mut j: usize = 0;
    while j < n
        invariant
            0 <= j <= n,
            n == q@.len(),
            fl == f@.len(),
            i + n <= fl,
            sub == f@.subrange(i as int, i as int + n as int),
            forall|k: int| 0 <= k < j ==> lower_byte(#[trigger] sub[k]) == lower_byte(q@[k]),
        decreases n - j,
    {
        let fb = lower_byte_of(f[i + j]);
        let qb = lower_byte_of(q[j]);
        if fb != qb {
            proof {
                assert(sub[j as int] == f@[i + j]);
                assert(lower_bytes(sub)[j as int] != lower_bytes(q@)[j as int]);
            }
            return false;
        }
        proof {
            assert(sub[j as int] == f@[i + j]);
        }
        j = j + 1;
    }
    proof {
        assert(lower_bytes(sub) =~= lower_bytes(q@));
    }
    true
}

/// Whether the query occurs in the filename bytes as a whole token.
fn word_match_exec(f: &[u8], q: &[u8]) -> (r: bool)
    requires
        q@.len() > 0,
    ensures
        r == word_match(f@, q@),
{
    let fl = f.len();
    let ql = q.len();
    if ql > fl {
        proof {
            assert forall|i: int| !match_at(f@, q@, i) by {}
        }
        return false;
    }
    let last = fl - ql;
    let mut i: usize = 0;
    while i <= last
        invariant
            0 <= i <= last + 1,
            fl == f@.len(),
            ql == q@.len(),
            1 <= ql <= fl,
            last == fl - ql,
            forall|s: int| 0 <= s < i ==> !match_at(f@, q@, s),
        decreases last - i + 1,
    {
        let left_ok = i == 0 || !is_word_byte_exec(f[i - 1]);
        let right_ok = i + ql == fl || !is_word_byte_exec(f[i + ql]);
        if left_ok && right_ok {
            if bytes_match_at(f, q, i) {
                proof {
                    assert(match_at(f@, q@, i as int));
                }
                return true;
            }
        }
        proof {
            assert(!match_at(f@, q@, i as int));
        }
        i = i + 1;
    }
    proof {
        assert forall|s: int| !match_at(f@, q@, s) by {
            if 0 <= s <= last {
                assert(!match_at(f@, q@, s));
            }
        }
    }
    false
}

/// Whether a byte can be part of a filename token.
fn is_word_byte_exec(b: u8) -> (r: bool)
    ensures
        r == is_word_byte(b),
{
    (48 <= b && b <= 57) || (65 <= b && b <= 90) || (97 <= b && b <= 122)
}

/// The catalog of photos and tags.
///
/// Each photo's path and content hash are unique; tag names are unique; a
/// tag's parent, when set, references an existing tag; each association
/// pair appears at most once and references existing endpoints; the
/// per-tag counts equal the number of associations of that tag; and the
/// filename index holds exactly one entry per photo, carrying the photo's
/// current filename.
pub struct Catalog {
    photos: Vec<PhotoRecord>,
    tags: Vec<TagRecord>,
    links: Vec<(u64, u64)>,
    counts: Vec<u64>,
    fts: Vec<(u64, String)>,
    next_photo_id: u64,
    next_tag_id: u64,
}

impl Catalog {
    /// The photo records, in insertion order.
    pub closed spec fn photos(&self) -> Seq<PhotoRecord> {
        self.photos@
    }

    /// The tag records, in insertion order.
    pub closed spec fn tags(&self) -> Seq<TagRecord> {
        self.tags@
    }

    /// The photo-tag associations, in insertion order.
    pub closed spec fn links(&self) -> Seq<(u64, u64)> {
        self.links@
    }

    /// The per-tag photo counts, one per tag, aligned with `tags()`.
    pub closed spec fn counts(&self) -> Seq<u64> {
        self.counts@
    }

    /// The filename index entries, one per photo, aligned with `photos()`.
    pub closed spec fn fts(&self) -> Seq<(u64, String)> {
        self.fts@
    }

    /// The id the next inserted photo receives.
    pub closed spec fn next_photo_id(&self) -> u64 {
        self.next_photo_id
    }

    /// The id the next inserted tag receives.
    pub closed spec fn next_tag_id(&self) -> u64 {
        self.next_tag_id
    }

    /// Photo ids, paths and content hashes are each unique, and ids stay
    /// below the allocator.
    pub open spec fn photos_wf(&self) -> bool {
        &&& forall|i: int, j: int|
            0 <= i < j < self.photos().len() ==> #[trigger] self.photos()[i].id
                != #[trigger] self.photos()[j].id
        &&& forall|i: int, j: int|
            0 <= i < j < self.photos().len() ==> #[trigger] self.photos()[i].path@
                != #[trigger] self.photos()[j].path@
        &&& forall|i: int, j: int|
            0 <= i < j < self.photos().len() ==> #[trigger] self.photos()[i].file_hash@
                != #[trigger] self.photos()[j].file_hash@
        &&& forall|i: int|
            0 <= i < self.photos().len() ==> #[trigger] self.photos()[i].id
                < self.next_photo_id()
    }

    /// Tag ids and names are unique, ids stay below the allocator, and a
    /// set parent references an existing tag.
    pub open spec fn tags_wf(&self) -> bool {
        &&& forall|i: int, j: int|
            0 <= i < j < self.tags().len() ==> #[trigger] self.tags()[i].id
                != #[trigger] self.tags()[j].id
        &&& forall|i: int, j: int|
            0 <= i < j < self.tags().len() ==> #[trigger] self.tags()[i].name@
                != #[trigger] self.tags()[j].name@
        &&& forall|i: int|
            0 <= i < self.tags().len() ==> #[trigger] self.tags()[i].id < self.next_tag_id()
        &&& forall|i: int|
            0 <= i < self.tags().len() ==> (#[trigger] self.tags()[i].parent_id matches Some(p)
                ==> tag_id_present(self.tags(), p))
    }

    /// Each association pair appears at most once and references an
    /// existing photo and an existing tag.
    pub open spec fn links_wf(&self) -> bool {
        &&& forall|i: int, j: int|
            0 <= i < j < self.links().len() ==> #[trigger] self.links()[i]
                != #[trigger] self.links()[j]
        &&& forall|i: int|
            0 <= i < self.links().len() ==> photo_id_present(
                self.photos(),
                (#[trigger] self.links()[i]).0,
            ) && tag_id_present(self.tags(), self.links()[i].1)
    }

    /// There is one count per tag, equal to the number of that tag's
    /// associations.
    pub open spec fn counts_wf(&self) -> bool {
        &&& self.counts().len() == self.tags().len()
        &&& forall|i: int|
            0 <= i < self.tags().len() ==> #[trigger] self.counts()[i] == count_links(
                self.links(),
                self.tags()[i].id,
            )
    }

    /// The filename index holds exactly one entry per photo record, with
    /// the photo's id and its current filename.
    pub open spec fn fts_wf(&self) -> bool {
        &&& self.fts().len() == self.photos().len()
        &&& forall|i: int|
            0 <= i < self.photos().len() ==> (#[trigger] self.fts()[i]).0 == self.photos()[i].id
                && self.fts()[i].1@ == self.photos()[i].filename@
    }

    /// The catalog's invariant: every operation requires and preserves it.
    pub open spec fn wf(&self) -> bool {
        &&& self.photos_wf()
        &&& self.tags_wf()
        &&& self.links_wf()
        &&& self.counts_wf()
        &&& self.fts_wf()
    }

    /// Creates an empty catalog.
    pub fn new() -> (r: Catalog)
        ensures
            r.wf(),
            r.photos() == Seq::<PhotoRecord>::empty(),
            r.tags() == Seq::<TagRecord>::empty(),
            r.links() == Seq::<(u64, u64)>::empty(),
            r.counts() == Seq::<u64>::empty(),
            r.fts() == Seq::<(u64, String)>::empty(),
            r.next_photo_id() == 1,
            r.next_tag_id() == 1,
    {
        Catalog {
            photos: Vec::new(),
            tags: Vec::new(),
            links: Vec::new(),
            counts: Vec::new(),
            fts: Vec::new(),
            next_photo_id: 1,
            next_tag_id: 1,
        }
    }

    /// How many photo records the catalog holds.
    pub fn photo_count(&self) -> (r: usize)
        ensures
            r == self.photos().len(),
    {
        self.photos.len()
    }

    /// How many tag records the catalog holds.
    pub fn tag_record_count(&self) -> (r: usize)
        ensures
            r == self.tags().len(),
    {
        self.tags.len()
    }

    /// How many associations the catalog holds.
    pub fn link_count(&self) -> (r: usize)
        ensures
            r == self.links().len(),
    {
        self.links.len()
    }

    /// Looks a photo up by id.
    pub fn find_photo(&self, photo_id: u64) -> (r: Option<&PhotoRecord>)
        ensures
            r matches Some(p) ==> exists|i: int|
                0 <= i < self.photos().len() && self.photos()[i].id == photo_id && *p
                    == self.photos()[i],
            r is None <==> !photo_id_present(self.photos(), photo_id),
    {
        let n = self.photos.len();
        let mut i: usize = 0;
        while i < n
            invariant
                0 <= i <= n,
                n == self.photos().len(),
                forall|j: int| 0 <= j < i ==> #[trigger] self.photos()[j].id != photo_id,
            decreases n - i,
        {
            if self.photos[i].id == photo_id {
                return Some(&self.photos[i]);
            }
            i = i + 1;
        }
        None
    }

    /// Looks a photo up by its filesystem path, for callers that update a
    /// re-scanned file in place rather than inserting it again.
    pub fn find_photo_by_path(&self, path: &String) -> (r: Option<&PhotoRecord>)
        ensures
            r matches Some(p) ==> exists|i: int|
                0 <= i < self.photos().len() && self.photos()[i].path@ == path@ && *p
                    == self.photos()[i],
            r is None <==> !has_photo_with_path(self.photos(), path@),
    {
        let n = self.photos.len();
        let mut i: usize = 0;
        while i < n
            invariant
                0 <= i <= n,
                n == self.photos().len(),
                forall|j: int| 0 <= j < i ==> #[trigger] self.photos()[j].path@ != path@,
            decreases n - i,
        {
            if self.photos[i].path.eq(path) {
                return Some(&self.photos[i]);
            }
            i = i + 1;
        }
        None
    }

    /// Looks a tag up by id.
    pub fn find_tag(&self, tag_id: u64) -> (r: Option<&TagRecord>)
        ensures
            r matches Some(t) ==> exists|i: int|
                0 <= i < self.tags().len() && self.tags()[i].id == tag_id && *t == self.tags()[i],
            r is None <==> !tag_id_present(self.tags(), tag_id),
    {
        let n = self.tags.len();
        let mut i: usize = 0;
        while i < n
            invariant
                0 <= i <= n,
                n == self.tags().len(),
                forall|j: int| 0 <= j < i ==> #[trigger] self.tags()[j].id != tag_id,
            decreases n - i,
        {
            if self.tags[i].id == tag_id {
                return Some(&self.tags[i]);
            }
            i = i + 1;
        }
        None
    }

    /// Whether the given association is present.
    pub fn has_link(&self, photo_id: u64, tag_id: u64) -> (r: bool)
        ensures
            r == link_present(self.links(), photo_id, tag_id),
    {
        let n = self.links.len();
        let mut i: usize = 0;
        while i < n
            invariant
                0 <= i <= n,
                n == self.links().len(),
                forall|j: int| 0 <= j < i ==> #[trigger] self.links()[j] != (photo_id, tag_id),
            decreases n - i,
        {
            if self.links[i].0 == photo_id && self.links[i].1 == tag_id {
                return true;
            }
            i = i + 1;
        }
        false
    }

    /// Inserts a photo record, assigning it a fresh id.
    ///
    /// A record whose `path` or `file_hash` is already catalogued is
    /// refused with `DuplicateKey` — never silently overwritten — and the
    /// catalog is left unchanged. Otherwise the record is appended and its
    /// filename indexed in the same step.
    #[verifier::spinoff_prover]
    pub fn insert_photo(
        &mut self,
        path: String,
        file_hash: String,
        filename: String,
        width: u32,
        height: u32,
        size: u64,
        created_at: i64,
        modified_at: i64,
    ) -> (r: Result<u64, MeshError>)
        requires
            old(self).wf(),
            old(self).next_photo_id() < u64::MAX,
        ensures
            final(self).wf(),
            final(self).tags() == old(self).tags(),
            final(self).links() == old(self).links(),
            final(self).counts() == old(self).counts(),
            final(self).next_tag_id() == old(self).next_tag_id(),
            (has_photo_with_path(old(self).photos(), path@) || has_photo_with_hash(
                old(self).photos(),
                file_hash@,
            )) <==> (r matches Err(e) && e == MeshError::DuplicateKey),
            r is Ok <==> !(has_photo_with_path(old(self).photos(), path@) || has_photo_with_hash(
                old(self).photos(),
                file_hash@,
            )),
            r is Err ==> final(self).photos() == old(self).photos() && final(self).fts() == old(
                self,
            ).fts() && final(self).next_photo_id() == old(self).next_photo_id(),
            r matches Ok(id) ==> {
                &&& id == old(self).next_photo_id()
                &&& final(self).photos() == old(self).photos().push(
                    (PhotoRecord {
                        id,
                        path,
                        file_hash,
                        filename,
                        width,
                        height,
                        size,
                        created_at,
                        modified_at,
                    }),
                )
                &&& final(self).fts() == old(self).fts().push((id, filename))
                &&& final(self).next_photo_id() == id + 1
            },
    {
        let n = self.photos.len();
        let mut i: usize = 0;
        while i < n
            invariant
                self == old(self),
                old(self).wf(),
                old(self).next_photo_id() < u64::MAX,
                0 <= i <= n,
                n == self.photos().len(),
                forall|j: int| 0 <= j < i ==> #[trigger] self.photos()[j].path@ != path@,
                forall|j: int| 0 <= j < i ==> #[trigger] self.photos()[j].file_hash@ != file_hash@,
            decreases n - i,
        {
            if self.photos[i].path.eq(&path) || self.photos[i].file_hash.eq(&file_hash) {
                return Err(MeshError::DuplicateKey);
            }
            i = i + 1;
        }
        let id = self.next_photo_id;
        let indexed = filename.clone();
        let record = PhotoRecord {
            id,
            path,
            file_hash,
            filename,
            width,
            height,
            size,
            created_at,
            modified_at,
        };
        let ghost oldp = self.photos();
        self.photos.push(record);
        self.fts.push((id, indexed));
        self.next_photo_id = id + 1;
        proof {
            assert(self.links() =~= old(self).links());
            let np = self.photos();
            assert forall|a: int, b: int| 0 <= a < b < np.len() implies #[trigger] np[a].file_hash@
                != #[trigger] np[b].file_hash@ by {
                if b == np.len() - 1 {
                    assert(np[a] == oldp[a]);
                    assert(oldp[a].file_hash@ != file_hash@);
                    assert(np[b].file_hash@ == file_hash@);
                }
            }
            assert forall|a: int, b: int| 0 <= a < b < np.len() implies #[trigger] np[a].path@
                != #[trigger] np[b].path@ by {
                if b == np.len() - 1 {
                    assert(np[a] == oldp[a]);
                    assert(oldp[a].path@ != path@);
                    assert(np[b].path@ == path@);
                }
            }
            assert forall|a: int, b: int| 0 <= a < b < np.len() implies #[trigger] np[a].id
                != #[trigger] np[b].id by {
                if b == np.len() - 1 {
                    assert(np[a] == oldp[a]);
                    assert(oldp[a].id < id);
                    assert(np[b].id == id);
                }
            }
            assert forall|k: int| 0 <= k < self.links().len() implies photo_id_present(
                np,
                (#[trigger] self.links()[k]).0,
            ) && tag_id_present(self.tags(), self.links()[k].1) by {
                assert(self.links() =~= old(self).links());
                assert(old(self).links()[k] == self.links()[k]);
                assert(photo_id_present(oldp, self.links()[k].0));
                let w = choose|m: int|
                    0 <= m < oldp.len() && #[trigger] oldp[m].id == self.links()[k].0;
                assert(np[w] == oldp[w]);
            }
        }
        Ok(id)
    }

    /// Changes a photo's display filename and, in the same step, replaces
    /// its filename index entry, so the index never lags the record.
    pub fn update_photo_filename(&mut self, photo_id: u64, filename: String) -> (r: Result<
        (),
        MeshError,
    >)
        requires
            old(self).wf(),
        ensures
            final(self).wf(),
            final(self).tags() == old(self).tags(),
            final(self).links() == old(self).links(),
            final(self).counts() == old(self).counts(),
            final(self).next_photo_id() == old(self).next_photo_id(),
            final(self).next_tag_id() == old(self).next_tag_id(),
            photo_id_present(old(self).photos(), photo_id) <==> r is Ok,
            r matches Err(e) ==> e == MeshError::NotFound && final(self).photos() == old(
                self,
            ).photos() && final(self).fts() == old(self).fts(),
            r is Ok ==> exists|i: int|
                {
                    &&& 0 <= i < old(self).photos().len()
                    &&& old(self).photos()[i].id == photo_id
                    &&& final(self).photos() == old(self).photos().update(
                        i,
                        (PhotoRecord { filename: filename, ..old(self).photos()[i] }),
                    )
                    &&& final(self).fts() == old(self).fts().update(i, (photo_id, filename))
                },
    {
        let found = photo_index(&self.photos, photo_id);
        match found {
            None => Err(MeshError::NotFound),
            Some(idx) => {
                let ghost op = self.photos();
                let ghost ofts = self.fts();
                let ghost newrec = (PhotoRecord { filename: filename, ..op[idx as int] });
                let indexed = filename.clone();
                let mut rec = self.photos.remove(idx);
                rec.filename = filename;
                self.photos.insert(idx, rec);
                let _ = self.fts.remove(idx);
                self.fts.insert(idx, (photo_id, indexed));
                proof {
                    assert(self.photos() =~= op.update(idx as int, newrec));
                    assert(self.fts() =~= ofts.update(idx as int, (photo_id, indexed)));
                    let np = self.photos();
                    assert(np.len() == op.len());
                    assert(forall|a: int|
                        0 <= a < op.len() ==> #[trigger] np[a].id == op[a].id && np[a].path@
                            == op[a].path@ && np[a].file_hash@ == op[a].file_hash@);
                    assert forall|a: int, b: int| 0 <= a < b < np.len() implies #[trigger] np[a].path@
                        != #[trigger] np[b].path@ by {
                        assert(np[a].path@ == op[a].path@ && np[b].path@ == op[b].path@);
                    }
                    assert forall|a: int, b: int|
                        0 <= a < b < np.len() implies #[trigger] np[a].file_hash@
                        != #[trigger] np[b].file_hash@ by {
                        assert(np[a].file_hash@ == op[a].file_hash@ && np[b].file_hash@
                            == op[b].file_hash@);
                    }
                    assert forall|a: int, b: int| 0 <= a < b < np.len() implies #[trigger] np[a].id
                        != #[trigger] np[b].id by {
                        assert(np[a].id == op[a].id && np[b].id == op[b].id);
                    }
                    assert forall|a: int| 0 <= a < np.len() implies #[trigger] np[a].id < self.next_photo_id() by {
                        assert(np[a].id == op[a].id);
                    }
                    assert(self.links() =~= old(self).links());
                    assert(self.tags() =~= old(self).tags());
                    assert(op == old(self).photos());
                    lemma_same_ids_keep_links_valid(op, np, self.links(), self.tags());
                    assert(indexed@ == newrec.filename@);
                }
                Ok(())
            },
        }
    }

    /// Refreshes a re-scanned photo's measurements and modification time
    /// in place. The path, hash, filename and id are untouched, so the
    /// filename index needs no change.
    pub fn update_photo_scan(
        &mut self,
        photo_id: u64,
        width: u32,
        height: u32,
        size: u64,
        modified_at: i64,
    ) -> (r: Result<(), MeshError>)
        requires
            old(self).wf(),
        ensures
            final(self).wf(),
            final(self).tags() == old(self).tags(),
            final(self).links() == old(self).links(),
            final(self).counts() == old(self).counts(),
            final(self).fts() == old(self).fts(),
            final(self).next_photo_id() == old(self).next_photo_id(),
            final(self).next_tag_id() == old(self).next_tag_id(),
            photo_id_present(old(self).photos(), photo_id) <==> r is Ok,
            r matches Err(e) ==> e == MeshError::NotFound && final(self).photos() == old(
                self,
            ).photos(),
            r is Ok ==> exists|i: int|
                {
                    &&& 0 <= i < old(self).photos().len()
                    &&& old(self).photos()[i].id == photo_id
                    &&& final(self).photos() == old(self).photos().update(
                        i,
                        (PhotoRecord {
                            width,
                            height,
                            size,
                            modified_at,
                            ..old(self).photos()[i]
                        }),
                    )
                },
    {
        let found = photo_index(&self.photos, photo_id);
        match found {
            None => Err(MeshError::NotFound),
            Some(idx) => {
                let ghost op = self.photos();
                let ghost newrec = (PhotoRecord {
                    width,
                    height,
                    size,
                    modified_at,
                    ..op[idx as int]
                });
                let mut rec = self.photos.remove(idx);
                rec.width = width;
                rec.height = height;
                rec.size = size;
                rec.modified_at = modified_at;
                self.photos.insert(idx, rec);
                proof {
                    assert(self.photos() =~= op.update(idx as int, newrec));
                    let np = self.photos();
                    assert(np.len() == op.len());
                    assert(forall|a: int|
                        0 <= a < op.len() ==> #[trigger] np[a].id == op[a].id && np[a].path@
                            == op[a].path@ && np[a].file_hash@ == op[a].file_hash@
                            && np[a].filename@ == op[a].filename@);
                    assert forall|a: int, b: int|
                        0 <= a < b < np.len() implies #[trigger] np[a].path@
                        != #[trigger] np[b].path@ by {
                        assert(np[a].path@ == op[a].path@ && np[b].path@ == op[b].path@);
                    }
                    assert forall|a: int, b: int|
                        0 <= a < b < np.len() implies #[trigger] np[a].file_hash@
                        != #[trigger] np[b].file_hash@ by {
                        assert(np[a].file_hash@ == op[a].file_hash@ && np[b].file_hash@
                            == op[b].file_hash@);
                    }
                    assert forall|a: int, b: int| 0 <= a < b < np.len() implies #[trigger] np[a].id
                        != #[trigger] np[b].id by {
                        assert(np[a].id == op[a].id && np[b].id == op[b].id);
                    }
                    assert forall|a: int|
                        0 <= a < np.len() implies #[trigger] np[a].id < self.next_photo_id() by {
                        assert(np[a].id == op[a].id);
                    }
                    assert(self.links() =~= old(self).links());
                    assert(self.tags() =~= old(self).tags());
                    assert(self.fts() =~= old(self).fts());
                    assert(op == old(self).photos());
                    lemma_same_ids_keep_links_valid(op, np, self.links(), self.tags());
                    assert forall|a: int|
                        0 <= a < np.len() implies (#[trigger] self.fts()[a]).0 == np[a].id
                        && self.fts()[a].1@ == np[a].filename@ by {
                        assert(np[a].id == op[a].id && np[a].filename@ == op[a].filename@);
                    }
                }
                Ok(())
            },
        }
    }

    /// Deletes a photo record: its associations are removed with it
    /// (cascade), its filename index entry is dropped in the same step, and
    /// every other record and association is left intact.
    pub fn delete_photo(&mut self, photo_id: u64) -> (r: Result<(), MeshError>)
        requires
            old(self).wf(),
        ensures
            final(self).wf(),
            final(self).tags() == old(self).tags(),
            final(self).next_photo_id() == old(self).next_photo_id(),
            final(self).next_tag_id() == old(self).next_tag_id(),
            photo_id_present(old(self).photos(), photo_id) <==> r is Ok,
            r matches Err(e) ==> e == MeshError::NotFound && final(self).photos() == old(
                self,
            ).photos() && final(self).fts() == old(self).fts() && final(self).links() == old(
                self,
            ).links() && final(self).counts() == old(self).counts(),
            r is Ok ==> {
                &&& exists|i: int|
                    {
                        &&& 0 <= i < old(self).photos().len()
                        &&& old(self).photos()[i].id == photo_id
                        &&& final(self).photos() == old(self).photos().remove(i)
                        &&& final(self).fts() == old(self).fts().remove(i)
                    }
                &&& final(self).links() == links_without_photo(old(self).links(), photo_id)
                &&& forall|k: int|
                    0 <= k < old(self).links().len() && (#[trigger] old(self).links()[k]).0
                        != photo_id ==> final(self).links().contains(old(self).links()[k])
                &&& forall|k: int|
                    0 <= k < final(self).links().len() ==> (#[trigger] final(self).links()[k]).0
                        != photo_id && old(self).links().contains(final(self).links()[k])
            },
    {
        let found = photo_index(&self.photos, photo_id);
        match found {
            None => Err(MeshError::NotFound),
            Some(idx) => {
                let ghost op = self.photos();
                let ghost ofts = self.fts();
                let ghost ol = self.links();
                let kept = links_excluding_photo(&self.links, photo_id);
                let _ = self.photos.remove(idx);
                let _ = self.fts.remove(idx);
                self.links = kept;
                let c = counts_for(&self.tags, &self.links);
                self.counts = c;
                proof {
                    let np = self.photos();
                    let nfts = self.fts();
                    let nl = self.links();
                    assert(self.tags() =~= old(self).tags());
                    assert forall|a: int, b: int| 0 <= a < b < ol.len() implies #[trigger] ol[a]
                        != #[trigger] ol[b] by {
                        assert(old(self).links()[a] == ol[a] && old(self).links()[b] == ol[b]);
                    }
                    lemma_links_without_photo(ol, photo_id);
                    proof_delete_photo_wf(op, np, ofts, nfts, ol, nl, self.tags(), idx as int, photo_id);
                }
                Ok(())
            },
        }
    }

    /// Inserts a tag, assigning it a fresh id. A duplicate name is refused
    /// with `DuplicateKey`; a parent that references no existing tag is
    /// refused with `NotFound`. Either way the catalog is left unchanged.
    pub fn insert_tag(&mut self, name: String, parent_id: Option<u64>, tag_color_hex: String) -> (r:
        Result<u64, MeshError>)
        requires
            old(self).wf(),
            old(self).next_tag_id() < u64::MAX,
        ensures
            final(self).wf(),
            final(self).photos() == old(self).photos(),
            final(self).links() == old(self).links(),
            final(self).fts() == old(self).fts(),
            final(self).next_photo_id() == old(self).next_photo_id(),
            tag_name_present(old(self).tags(), name@) <==> (r matches Err(e) && e
                == MeshError::DuplicateKey),
            (!tag_name_present(old(self).tags(), name@) && (parent_id matches Some(p)
                && !tag_id_present(old(self).tags(), p))) <==> (r matches Err(e) && e
                == MeshError::NotFound),
            r is Ok <==> (!tag_name_present(old(self).tags(), name@) && (parent_id matches Some(p)
                ==> tag_id_present(old(self).tags(), p))),
            r is Err ==> final(self).tags() == old(self).tags() && final(self).counts() == old(
                self,
            ).counts() && final(self).next_tag_id() == old(self).next_tag_id(),
            r matches Ok(id) ==> {
                &&& id == old(self).next_tag_id()
                &&& final(self).tags() == old(self).tags().push(
                    (TagRecord { id, name, parent_id, tag_color_hex }),
                )
                &&& final(self).counts() == old(self).counts().push(0)
                &&& final(self).next_tag_id() == id + 1
            },
    {
        let n = self.tags.len();
        let mut i: usize = 0;
        while i < n
            invariant
                self == old(self),
                old(self).wf(),
                0 <= i <= n,
                n == self.tags().len(),
                forall|j: int| 0 <= j < i ==> #[trigger] self.tags()[j].name@ != name@,
            decreases n - i,
        {
            if self.tags[i].name.eq(&name) {
                return Err(MeshError::DuplicateKey);
            }
            i = i + 1;
        }
        if let Some(p) = parent_id {
            if tag_index(&self.tags, p).is_none() {
                return Err(MeshError::NotFound);
            }
        }
        let id = self.next_tag_id;
        let ghost ot = self.tags();
        self.tags.push(TagRecord { id, name, parent_id, tag_color_hex });
        self.counts.push(0);
        self.next_tag_id = id + 1;
        proof {
            let nt = self.tags();
            assert(self.links() =~= old(self).links());
            assert(self.photos() =~= old(self).photos());
            assert forall|k: int|
                0 <= k < self.links().len() implies (#[trigger] self.links()[k]).1 != id by {
                assert(tag_id_present(ot, self.links()[k].1));
                let w = choose|w: int| 0 <= w < ot.len() && #[trigger] ot[w].id == self.links()[k].1;
                assert(ot[w].id < id);
            }
            lemma_count_links_absent(self.links(), id);
            assert forall|a: int, b: int| 0 <= a < b < nt.len() implies #[trigger] nt[a].id
                != #[trigger] nt[b].id by {
                if b == nt.len() - 1 {
                    assert(nt[a] == ot[a]);
                    assert(ot[a].id < id);
                }
            }
            assert forall|a: int, b: int| 0 <= a < b < nt.len() implies #[trigger] nt[a].name@
                != #[trigger] nt[b].name@ by {
                if b == nt.len() - 1 {
                    assert(nt[a] == ot[a]);
                    assert(ot[a].name@ != name@);
                }
            }
            assert forall|a: int| 0 <= a < nt.len() implies (#[trigger] nt[a].parent_id matches
                Some(p) ==> tag_id_present(nt, p)) by {
                if a < nt.len() - 1 {
                    assert(nt[a] == ot[a]);
                }
                match nt[a].parent_id {
                    Some(p) => {
                        assert(tag_id_present(ot, p));
                        let w = choose|w: int| 0 <= w < ot.len() && #[trigger] ot[w].id == p;
                        assert(nt[w] == ot[w]);
                    },
                    None => {},
                }
            }
            assert forall|k: int| 0 <= k < self.links().len() implies photo_id_present(
                self.photos(),
                (#[trigger] self.links()[k]).0,
            ) && tag_id_present(nt, self.links()[k].1) by {
                assert(photo_id_present(old(self).photos(), old(self).links()[k].0));
                assert(tag_id_present(ot, self.links()[k].1));
                let w = choose|w: int| 0 <= w < ot.len() && #[trigger] ot[w].id == self.links()[k].1;
                assert(nt[w] == ot[w]);
            }
            assert forall|a: int| 0 <= a < nt.len() implies #[trigger] self.counts()[a]
                == count_links(self.links(), nt[a].id) by {
                if a < nt.len() - 1 {
                    assert(self.counts()[a] == old(self).counts()[a]);
                    assert(nt[a] == ot[a]);
                }
            }
        }
        Ok(id)
    }

    /// Associates a photo with a tag. An absent endpoint is refused with
    /// `NotFound`; an association that already exists is refused with
    /// `DuplicateKey`: each pair appears at most once.
    pub fn add_photo_tag(&mut self, photo_id: u64, tag_id: u64) -> (r: Result<(), MeshError>)
        requires
            old(self).wf(),
        ensures
            final(self).wf(),
            final(self).photos() == old(self).photos(),
            final(self).tags() == old(self).tags(),
            final(self).fts() == old(self).fts(),
            final(self).next_photo_id() == old(self).next_photo_id(),
            final(self).next_tag_id() == old(self).next_tag_id(),
            (!photo_id_present(old(self).photos(), photo_id) || !tag_id_present(
                old(self).tags(),
                tag_id,
            )) <==> (r matches Err(e) && e == MeshError::NotFound),
            (photo_id_present(old(self).photos(), photo_id) && tag_id_present(
                old(self).tags(),
                tag_id,
            ) && link_present(old(self).links(), photo_id, tag_id)) <==> (r matches Err(e) && e
                == MeshError::DuplicateKey),
            r is Ok <==> (photo_id_present(old(self).photos(), photo_id) && tag_id_present(
                old(self).tags(),
                tag_id,
            ) && !link_present(old(self).links(), photo_id, tag_id)),
            r is Err ==> final(self).links() == old(self).links() && final(self).counts() == old(
                self,
            ).counts(),
            r is Ok ==> final(self).links() == old(self).links().push((photo_id, tag_id)),
    {
        if photo_index(&self.photos, photo_id).is_none() || tag_index(
            &self.tags,
            tag_id,
        ).is_none() {
            return Err(MeshError::NotFound);
        }
        if self.has_link(photo_id, tag_id) {
            return Err(MeshError::DuplicateKey);
        }
        let ghost ol = self.links();
        self.links.push((photo_id, tag_id));
        let c = counts_for(&self.tags, &self.links);
        self.counts = c;
        proof {
            let nl = self.links();
            assert(self.photos() =~= old(self).photos());
            assert(self.tags() =~= old(self).tags());
            assert(self.fts() =~= old(self).fts());
            assert forall|a: int, b: int| 0 <= a < b < nl.len() implies #[trigger] nl[a]
                != #[trigger] nl[b] by {
                if b == nl.len() - 1 {
                    assert(nl[a] == ol[a]);
                    assert(!link_present(ol, photo_id, tag_id));
                }
            }
            assert forall|k: int| 0 <= k < nl.len() implies photo_id_present(
                self.photos(),
                (#[trigger] nl[k]).0,
            ) && tag_id_present(self.tags(), nl[k].1) by {
                if k < nl.len() - 1 {
                    assert(nl[k] == ol[k]);
                    assert(photo_id_present(old(self).photos(), old(self).links()[k].0));
                    assert(tag_id_present(old(self).tags(), old(self).links()[k].1));
                }
            }
        }
        Ok(())
    }

    /// Removes one photo-tag association; the pair not being present is
    /// refused with `NotFound`. Every other association is left intact.
    pub fn remove_photo_tag(&mut self, photo_id: u64, tag_id: u64) -> (r: Result<(), MeshError>)
        requires
            old(self).wf(),
        ensures
            final(self).wf(),
            final(self).photos() == old(self).photos(),
            final(self).tags() == old(self).tags(),
            final(self).fts() == old(self).fts(),
            final(self).next_photo_id() == old(self).next_photo_id(),
            final(self).next_tag_id() == old(self).next_tag_id(),
            link_present(old(self).links(), photo_id, tag_id) <==> r is Ok,
            r matches Err(e) ==> e == MeshError::NotFound && final(self).links() == old(
                self,
            ).links() && final(self).counts() == old(self).counts(),
            r is Ok ==> final(self).links() == links_without_pair(
                old(self).links(),
                photo_id,
                tag_id,
            ),
    {
        if !self.has_link(photo_id, tag_id) {
            return Err(MeshError::NotFound);
        }
        let ghost ol = self.links();
        let kept = links_excluding_pair(&self.links, photo_id, tag_id);
        self.links = kept;
        let c = counts_for(&self.tags, &self.links);
        self.counts = c;
        proof {
            let nl = self.links();
            assert(self.photos() =~= old(self).photos());
            assert(self.tags() =~= old(self).tags());
            assert(self.fts() =~= old(self).fts());
            lemma_links_without_pair(ol, photo_id, tag_id);
            assert forall|k: int| 0 <= k < nl.len() implies photo_id_present(
                self.photos(),
                (#[trigger] nl[k]).0,
            ) && tag_id_present(self.tags(), nl[k].1) by {
                assert(ol.contains(nl[k]));
                let w = choose|w: int| 0 <= w < ol.len() && #[trigger] ol[w] == nl[k];
                assert(photo_id_present(old(self).photos(), old(self).links()[w].0));
                assert(tag_id_present(old(self).tags(), old(self).links()[w].1));
            }
        }
        Ok(())
    }

    /// The number of photos associated with the given tag, served from the
    /// maintained per-tag counts.
    pub fn tag_count(&self, tag_id: u64) -> (r: Result<u64, MeshError>)
        requires
            self.wf(),
        ensures
            tag_id_present(self.tags(), tag_id) <==> r is Ok,
            r matches Ok(c) ==> c == count_links(self.links(), tag_id),
            r matches Err(e) ==> e == MeshError::NotFound,
    {
        match tag_index(&self.tags, tag_id) {
            None => Err(MeshError::NotFound),
            Some(idx) => Ok(self.counts[idx]),
        }
    }

    /// Deletes a tag: its associations are removed with it (cascade), and
    /// any child tag has its parent reference nulled — children are never
    /// deleted with their parent. Every other tag and association is left
    /// intact.
    pub fn delete_tag(&mut self, tag_id: u64) -> (r: Result<(), MeshError>)
        requires
            old(self).wf(),
        ensures
            final(self).wf(),
            final(self).photos() == old(self).photos(),
            final(self).fts() == old(self).fts(),
            final(self).next_photo_id() == old(self).next_photo_id(),
            final(self).next_tag_id() == old(self).next_tag_id(),
            tag_id_present(old(self).tags(), tag_id) <==> r is Ok,
            r matches Err(e) ==> e == MeshError::NotFound && final(self).tags() == old(
                self,
            ).tags() && final(self).links() == old(self).links() && final(self).counts() == old(
                self,
            ).counts(),
            r is Ok ==> {
                &&& final(self).tags() == tags_after_delete(old(self).tags(), tag_id)
                &&& final(self).links() == links_without_tag(old(self).links(), tag_id)
                &&& forall|k: int|
                    0 <= k < old(self).tags().len() && (#[trigger] old(self).tags()[k]).id
                        != tag_id ==> tag_id_present(final(self).tags(), old(self).tags()[k].id)
                &&& forall|k: int|
                    0 <= k < old(self).links().len() && (#[trigger] old(self).links()[k]).1
                        != tag_id ==> final(self).links().contains(old(self).links()[k])
            },
    {
        let found = tag_index(&self.tags, tag_id);
        match found {
            None => Err(MeshError::NotFound),
            Some(idx) => {
                let ghost ot = self.tags();
                let ghost ol = self.links();
                let kept = links_excluding_tag(&self.links, tag_id);
                let _ = self.tags.remove(idx);
                let ghost mid = self.tags();
                proof {
                    ot.remove_ensures(idx as int);
                }
                let n = self.tags.len();
                let mut j: usize = 0;
                while j < n
                    invariant
                        0 <= j <= n,
                        n == self.tags().len(),
                        self.photos() == old(self).photos(),
                        self.fts() == old(self).fts(),
                        self.links() == old(self).links(),
                        self.counts() == old(self).counts(),
                        self.next_photo_id() == old(self).next_photo_id(),
                        self.next_tag_id() == old(self).next_tag_id(),
                        mid.len() == n,
                        forall|k: int|
                            0 <= k < j ==> #[trigger] self.tags()[k] == nulled_tag(mid[k], tag_id),
                        forall|k: int| j <= k < n ==> #[trigger] self.tags()[k] == mid[k],
                    decreases n - j,
                {
                    let has_dead_parent = match self.tags[j].parent_id {
                        Some(p) => p == tag_id,
                        None => false,
                    };
                    let ghost before = self.tags();
                    if has_dead_parent {
                        let mut rec = self.tags.remove(j);
                        rec.parent_id = None;
                        self.tags.insert(j, rec);
                        proof {
                            assert(self.tags() =~= before.update(j as int, nulled_tag(mid[j as int], tag_id)));
                        }
                    }
                    proof {
                        assert forall|k: int|
                            0 <= k < j + 1 implies #[trigger] self.tags()[k] == nulled_tag(
                            mid[k],
                            tag_id,
                        ) by {
                            if k < j {
                                assert(self.tags()[k] == before[k]);
                            }
                        }
                    }
                    j = j + 1;
                }
                self.links = kept;
                let c = counts_for(&self.tags, &self.links);
                self.counts = c;
                proof {
                    let nt = self.tags();
                    let nl = self.links();
                    assert forall|a: int, b: int| 0 <= a < b < ol.len() implies #[trigger] ol[a]
                        != #[trigger] ol[b] by {
                        assert(old(self).links()[a] == ol[a] && old(self).links()[b] == ol[b]);
                    }
                    lemma_links_without_tag(ol, tag_id);
                    assert forall|i: int|
                        0 <= i < ot.len() && i != idx implies #[trigger] ot[i].id != tag_id by {
                        if i < idx {
                            assert(ot[i].id != ot[idx as int].id);
                        } else {
                            assert(ot[idx as int].id != ot[i].id);
                        }
                    }
                    lemma_tags_after_delete_pointwise(ot, tag_id, idx as int);
                    assert forall|k: int| 0 <= k < nt.len() implies #[trigger] nt[k]
                        == tags_after_delete(ot, tag_id)[k] by {
                        let w = if k < idx {
                            k
                        } else {
                            k + 1
                        };
                        assert(mid[k] == ot[w]);
                        assert(nt[k] == nulled_tag(mid[k], tag_id));
                    }
                    assert(nt =~= tags_after_delete(ot, tag_id));
                    assert forall|k: int| 0 <= k < nt.len() implies #[trigger] nt[k] == nulled_tag(
                        ot[if k < idx {
                            k
                        } else {
                            k + 1
                        }],
                        tag_id,
                    ) by {
                        assert(mid[k] == ot[if k < idx {
                            k
                        } else {
                            k + 1
                        }]);
                    }
                    // tag well-formedness of the rebuilt tags
                    assert forall|a: int, b: int| 0 <= a < b < nt.len() implies #[trigger] nt[a].id
                        != #[trigger] nt[b].id by {
                        let wa = if a < idx {
                            a
                        } else {
                            a + 1
                        };
                        let wb = if b < idx {
                            b
                        } else {
                            b + 1
                        };
                        assert(nt[a].id == ot[wa].id && nt[b].id == ot[wb].id);
                    }
                    assert forall|a: int, b: int|
                        0 <= a < b < nt.len() implies #[trigger] nt[a].name@
                        != #[trigger] nt[b].name@ by {
                        let wa = if a < idx {
                            a
                        } else {
                            a + 1
                        };
                        let wb = if b < idx {
                            b
                        } else {
                            b + 1
                        };
                        assert(nt[a].name@ == ot[wa].name@ && nt[b].name@ == ot[wb].name@);
                    }
                    assert forall|a: int| 0 <= a < nt.len() implies #[trigger] nt[a].id
                        < self.next_tag_id() by {
                        let wa = if a < idx {
                            a
                        } else {
                            a + 1
                        };
                        assert(nt[a].id == ot[wa].id);
                    }
                    assert forall|k: int|
                        0 <= k < ot.len() && (#[trigger] ot[k]).id != tag_id implies tag_id_present(
                        nt,
                        ot[k].id,
                    ) by {
                        let k2 = if k < idx {
                            k
                        } else {
                            k - 1
                        };
                        assert(nt[k2] == nulled_tag(ot[k], tag_id));
                    }
                    assert forall|a: int| 0 <= a < nt.len() implies (#[trigger] nt[a].parent_id
                        matches Some(p) ==> tag_id_present(nt, p)) by {
                        let wa = if a < idx {
                            a
                        } else {
                            a + 1
                        };
                        assert(nt[a] == nulled_tag(ot[wa], tag_id));
                        match nt[a].parent_id {
                            Some(p) => {
                                assert(ot[wa].parent_id == Some(p));
                                assert(p != tag_id);
                                assert(tag_id_present(ot, p));
                                let w = choose|w: int| 0 <= w < ot.len() && #[trigger] ot[w].id == p;
                                assert(ot[w].id != ot[idx as int].id || w == idx);
                                assert(w != idx);
                                assert(tag_id_present(nt, p));
                            },
                            None => {},
                        }
                    }
                    // link well-formedness over the filtered associations
                    assert forall|k: int| 0 <= k < nl.len() implies photo_id_present(
                        self.photos(),
                        (#[trigger] nl[k]).0,
                    ) && tag_id_present(nt, nl[k].1) by {
                        assert(nl[k].1 != tag_id && ol.contains(nl[k]));
                        let w = choose|w: int| 0 <= w < ol.len() && #[trigger] ol[w] == nl[k];
                        assert(photo_id_present(old(self).photos(), old(self).links()[w].0));
                        assert(tag_id_present(ot, ol[w].1));
                        let wt = choose|wt: int| 0 <= wt < ot.len() && #[trigger] ot[wt].id == nl[k].1;
                        assert(wt != idx);
                        let wt2 = if wt < idx {
                            wt
                        } else {
                            wt - 1
                        };
                        assert(nt[wt2] == nulled_tag(ot[wt], tag_id));
                    }
                }
                Ok(())
            },
        }
    }

    /// A filename search, served from the filename index, which holds
    /// exactly each photo's current filename.
    ///
    /// Returns the ids of the photos whose current filename contains the
    /// query as a whole token, case-insensitively. Deviating from a
    /// relevance-ranked full-text search, the ids come in catalog order,
    /// and the query is one token: an empty query, or one holding a byte
    /// that is not an ASCII letter or digit, is no token and returns
    /// nothing.
    pub fn search_filename(&self, query: &str) -> (r: Vec<u64>)
        requires
            self.wf(),
        ensures
            r@ == matching_ids(self.fts(), query.spec_bytes()),
            !valid_query(query.spec_bytes()) ==> r@ == Seq::<u64>::empty(),
    {
        let qb = query.as_bytes();
        let ghost q = query.spec_bytes();
        if qb.len() == 0 {
            proof {
                lemma_matching_ids_invalid(self.fts(), q);
            }
            return Vec::new();
        }
        let mut v: usize = 0;
        while v < qb.len()
            invariant
                0 <= v <= qb@.len(),
                qb@ == q,
                q == query.spec_bytes(),
                forall|k: int| 0 <= k < v ==> is_word_byte(#[trigger] q[k]),
            decreases qb@.len() - v,
        {
            if !is_word_byte_exec(qb[v]) {
                proof {
                    lemma_matching_ids_invalid(self.fts(), q);
                }
                return Vec::new();
            }
            v = v + 1;
        }
        let n = self.fts.len();
        let mut out: Vec<u64> = Vec::new();
        let mut i: usize = 0;
        while i < n
            invariant
                0 <= i <= n,
                n == self.fts().len(),
                qb@ == q,
                q == query.spec_bytes(),
                q.len() > 0,
                valid_query(q),
                out@ == matching_ids(self.fts().take(i as int), q),
            decreases n - i,
        {
            proof {
                assert(self.fts().take(i as int + 1).drop_last() =~= self.fts().take(i as int));
                assert(self.fts().take(i as int + 1).last() == self.fts()[i as int]);
            }
            let entry = &self.fts[i];
            let fb = entry.1.as_str().as_bytes();
            if word_match_exec(fb, qb) {
                out.push(entry.0);
            }
            i = i + 1;
        }
        proof {
            assert(self.fts().take(n as int) =~= self.fts());
        }
        out
    }

    /// The id the next inserted photo receives.
    pub fn next_photo_id_value(&self) -> (r: u64)
        ensures
            r == self.next_photo_id(),
    {
        self.next_photo_id
    }

    /// The id the next inserted tag receives.
    pub fn next_tag_id_value(&self) -> (r: u64)
        ensures
            r == self.next_tag_id(),
    {
        self.next_tag_id
    }
}

} // verus!
