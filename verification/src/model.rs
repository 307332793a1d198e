//! The mathematical model of the store.
//!
//! The store's contracts are stated over [`StoreView`], a sequence-of-rows
//! picture of the two entity relations (images and tags) together with the
//! symmetric membership edges, kept as id lists on both sides.

use vstd::prelude::*;

verus! {

/// One image row: id, path, creation time, and the ids of the tags the
/// image carries, in assignment order.
#[verifier::ext_equal]
pub struct ImageView {
    pub id: i64,
    pub path: Seq<char>,
    pub created_at_time: i64,
    pub tag_ids: Seq<i64>,
}

/// One tag row: id, name, and the ids of the images carrying this tag,
/// in assignment order.
#[verifier::ext_equal]
pub struct TagView {
    pub id: i64,
    pub name: Seq<char>,
    pub image_ids: Seq<i64>,
}

/// The whole store: both relations, ordered by ascending id, plus the
/// next id each relation will assign.
#[verifier::ext_equal]
pub struct StoreView {
    pub images: Seq<ImageView>,
    pub tags: Seq<TagView>,
    pub next_image_id: i64,
    pub next_tag_id: i64,
}

/// A tag name is valid when it is non-empty and does not start with
/// '-', space, tab, CR or LF.
pub open spec fn valid_tag_name(s: Seq<char>) -> bool {
    &&& s.len() > 0
    &&& s[0] != '-'
    &&& s[0] != ' '
    &&& s[0] != '\t'
    &&& s[0] != '\r'
    &&& s[0] != '\n'
}

/// Some image row has the given path.
pub open spec fn has_image_path(images: Seq<ImageView>, path: Seq<char>) -> bool {
    exists|i: int| 0 <= i < images.len() && (#[trigger] images[i]).path == path
}

/// Some image row has the given id.
pub open spec fn has_image_id(images: Seq<ImageView>, id: i64) -> bool {
    exists|i: int| 0 <= i < images.len() && (#[trigger] images[i]).id == id
}

/// The index of the image row with the given id.
pub open spec fn image_index(images: Seq<ImageView>, id: i64) -> int {
    choose|i: int| 0 <= i < images.len() && (#[trigger] images[i]).id == id
}

/// The index of the image row with the given path.
pub open spec fn image_path_index(images: Seq<ImageView>, path: Seq<char>) -> int {
    choose|i: int| 0 <= i < images.len() && (#[trigger] images[i]).path == path
}

/// Some tag row has the given id.
pub open spec fn has_tag_id(tags: Seq<TagView>, id: i64) -> bool {
    exists|j: int| 0 <= j < tags.len() && (#[trigger] tags[j]).id == id
}

/// The index of the tag row with the given id.
pub open spec fn tag_index(tags: Seq<TagView>, id: i64) -> int {
    choose|j: int| 0 <= j < tags.len() && (#[trigger] tags[j]).id == id
}

/// Some tag row has the given name.
pub open spec fn has_tag_name(tags: Seq<TagView>, name: Seq<char>) -> bool {
    exists|j: int| 0 <= j < tags.len() && (#[trigger] tags[j]).name == name
}

/// The index of the tag row with the given name.
pub open spec fn tag_name_index(tags: Seq<TagView>, name: Seq<char>) -> int {
    choose|j: int| 0 <= j < tags.len() && (#[trigger] tags[j]).name == name
}

/// Well-formedness of the image relation: ids strictly ascending (hence
/// unique), paths unique, ids positive and below the next id, and every
/// tag-id list free of duplicates with each entry naming an existing tag.
pub open spec fn images_wf(v: StoreView) -> bool {
    &&& 1 <= v.next_image_id
    &&& forall|i: int, j: int|
        0 <= i < j < v.images.len() ==> (#[trigger] v.images[i]).id < (#[trigger] v.images[j]).id
    &&& forall|i: int, j: int|
        0 <= i < j < v.images.len() ==> (#[trigger] v.images[i]).path != (#[trigger] v.images[j]).path
    &&& forall|i: int| 0 <= i < v.images.len() ==> 1 <= (#[trigger] v.images[i]).id < v.next_image_id
    &&& forall|i: int| 0 <= i < v.images.len() ==> (#[trigger] v.images[i]).tag_ids.no_duplicates()
    &&& forall|i: int, k: int|
        0 <= i < v.images.len() && 0 <= k < (#[trigger] v.images[i]).tag_ids.len()
            ==> has_tag_id(v.tags, #[trigger] v.images[i].tag_ids[k])
}

/// Well-formedness of the tag relation: ids strictly ascending, names
/// unique and valid, ids positive and below the next id, and every
/// image-id list duplicate-free, non-empty (no orphan tags) and made of
/// existing image ids.
pub open spec fn tags_wf(v: StoreView) -> bool {
    &&& 1 <= v.next_tag_id
    &&& forall|i: int, j: int|
        0 <= i < j < v.tags.len() ==> (#[trigger] v.tags[i]).id < (#[trigger] v.tags[j]).id
    &&& forall|i: int, j: int|
        0 <= i < j < v.tags.len() ==> (#[trigger] v.tags[i]).name != (#[trigger] v.tags[j]).name
    &&& forall|j: int| 0 <= j < v.tags.len() ==> 1 <= (#[trigger] v.tags[j]).id < v.next_tag_id
    &&& forall|j: int| 0 <= j < v.tags.len() ==> valid_tag_name((#[trigger] v.tags[j]).name)
    &&& forall|j: int| 0 <= j < v.tags.len() ==> (#[trigger] v.tags[j]).image_ids.len() >= 1
    &&& forall|j: int| 0 <= j < v.tags.len() ==> (#[trigger] v.tags[j]).image_ids.no_duplicates()
    &&& forall|j: int, k: int|
        0 <= j < v.tags.len() && 0 <= k < (#[trigger] v.tags[j]).image_ids.len()
            ==> has_image_id(v.images, #[trigger] v.tags[j].image_ids[k])
}

/// Symmetry of the membership edges: a tag id stands in an image's list
/// exactly when that image's id stands in the tag's list.
pub open spec fn edges_symmetric(v: StoreView) -> bool {
    forall|i: int, j: int|
        0 <= i < v.images.len() && 0 <= j < v.tags.len() ==> ((#[trigger] v.images[i]).tag_ids.contains(
            v.tags[j].id,
        ) <==> (#[trigger] v.tags[j]).image_ids.contains(v.images[i].id))
}

/// Well-formedness of the whole store.
pub open spec fn store_wf(v: StoreView) -> bool {
    &&& images_wf(v)
    &&& tags_wf(v)
    &&& edges_symmetric(v)
}

/// The view of an empty store.
pub open spec fn empty_store() -> StoreView {
    StoreView { images: Seq::empty(), tags: Seq::empty(), next_image_id: 1, next_tag_id: 1 }
}

/// An image carrying no tag.
pub open spec fn untagged_fn() -> spec_fn(ImageView) -> bool {
    |iv: ImageView| iv.tag_ids.len() == 0
}

/// The tag queue: the images carrying no tag, by descending id.
pub open spec fn queue_view(v: StoreView) -> Seq<ImageView> {
    v.images.reverse().filter(untagged_fn())
}

/// The image carries a tag with the given name.
pub open spec fn image_has_tag_name(tags: Seq<TagView>, iv: ImageView, name: Seq<char>) -> bool {
    exists|j: int|
        0 <= j < tags.len() && (#[trigger] tags[j]).name == name && iv.tag_ids.contains(tags[j].id)
}

/// The image satisfies a query: it carries every included name and none of
/// the excluded ones. An empty inclusion list matches nothing, by design.
pub open spec fn matches_query(
    tags: Seq<TagView>,
    iv: ImageView,
    inc: Seq<Seq<char>>,
    exc: Seq<Seq<char>>,
) -> bool {
    &&& inc.len() > 0
    &&& forall|k: int| 0 <= k < inc.len() ==> image_has_tag_name(tags, iv, #[trigger] inc[k])
    &&& forall|k: int| 0 <= k < exc.len() ==> !image_has_tag_name(tags, iv, #[trigger] exc[k])
}

/// Satisfaction of a fixed query, as a predicate on images.
pub open spec fn matches_fn(tags: Seq<TagView>, inc: Seq<Seq<char>>, exc: Seq<Seq<char>>) -> spec_fn(
    ImageView,
) -> bool {
    |iv: ImageView| matches_query(tags, iv, inc, exc)
}

/// All images satisfying a query, by descending id.
pub open spec fn search_view(v: StoreView, inc: Seq<Seq<char>>, exc: Seq<Seq<char>>) -> Seq<
    ImageView,
> {
    v.images.reverse().filter(matches_fn(v.tags, inc, exc))
}

/// The views of a list of names.
pub open spec fn names_of(ss: Seq<String>) -> Seq<Seq<char>> {
    ss.map_values(|s: String| s@)
}

/// The views of a list of borrowed names.
pub open spec fn str_views(ss: Seq<&str>) -> Seq<Seq<char>> {
    ss.map_values(|s: &str| s@)
}

/// A query term that excludes: it starts with '-'.
pub open spec fn is_exclusion(s: Seq<char>) -> bool {
    s.len() > 0 && s[0] == '-'
}

/// An excluding query term, as a predicate.
pub open spec fn exclusion_fn() -> spec_fn(Seq<char>) -> bool {
    |s: Seq<char>| is_exclusion(s)
}

/// An including query term, as a predicate.
pub open spec fn inclusion_fn() -> spec_fn(Seq<char>) -> bool {
    |s: Seq<char>| !is_exclusion(s)
}

/// Stripping the '-' prefix from a query term.
pub open spec fn strip_fn() -> spec_fn(Seq<char>) -> Seq<char> {
    |s: Seq<char>| s.skip(1)
}

/// The inclusion names of a raw query: the terms without a '-' prefix.
pub open spec fn included_names(qs: Seq<Seq<char>>) -> Seq<Seq<char>> {
    qs.filter(inclusion_fn())
}

/// The exclusion names of a raw query: the terms with a '-' prefix,
/// with the prefix stripped.
pub open spec fn excluded_names(qs: Seq<Seq<char>>) -> Seq<Seq<char>> {
    qs.filter(exclusion_fn()).map_values(strip_fn())
}

/// Filtering one more element appends it exactly when it satisfies the
/// predicate.
pub proof fn lemma_filter_take_succ<A>(s: Seq<A>, pred: spec_fn(A) -> bool, i: int)
    requires
        0 <= i < s.len(),
    ensures
        s.take(i + 1).filter(pred) == (if pred(s[i]) {
            s.take(i).filter(pred).push(s[i])
        } else {
            s.take(i).filter(pred)
        }),
{
    let t = s.take(i + 1);
    assert(t.drop_last() =~= s.take(i));
    assert(t.last() == s[i]);
    reveal(Seq::filter);
}

/// A duplicate-free list of ids drawn from `[1, hi)` has fewer than `hi`
/// entries.
pub proof fn lemma_distinct_ids_bound(l: Seq<i64>, hi: int)
    requires
        l.no_duplicates(),
        forall|k: int| 0 <= k < l.len() ==> 1 <= #[trigger] l[k] < hi,
        1 <= hi,
    ensures
        l.len() <= hi - 1,
{
    let li = l.map_values(|x: i64| x as int);
    assert(li.no_duplicates()) by {
        assert forall|a: int, b: int|
            0 <= a < li.len() && 0 <= b < li.len() && a != b implies li[a] != li[b] by {
            assert(l[a] != l[b]);
        }
    }
    li.unique_seq_to_set();
    let range = vstd::set_lib::set_int_range(1, hi);
    vstd::set_lib::lemma_int_range(1, hi);
    assert(li.to_set().subset_of(range)) by {
        assert forall|x: int| li.to_set().contains(x) implies range.contains(x) by {
            let k = choose|k: int| 0 <= k < li.len() && li[k] == x;
            assert(1 <= l[k] < hi);
        }
    }
    vstd::set_lib::lemma_len_subset(li.to_set(), range);
}

/// The sequence of image ids in the store.
pub open spec fn image_ids_of(images: Seq<ImageView>) -> Seq<i64> {
    images.map_values(|iv: ImageView| iv.id)
}

/// The sequence of tag ids in the store.
pub open spec fn tag_ids_of(tags: Seq<TagView>) -> Seq<i64> {
    tags.map_values(|t: TagView| t.id)
}

/// A well-formed store's relations and membership lists are all shorter
/// than the largest id.
pub proof fn lemma_store_size_bounds(v: StoreView)
    requires
        store_wf(v),
    ensures
        v.images.len() < i64::MAX,
        v.tags.len() < i64::MAX,
        forall|j: int|
            0 <= j < v.tags.len() ==> (#[trigger] v.tags[j]).image_ids.len() < i64::MAX,
        forall|i: int|
            0 <= i < v.images.len() ==> (#[trigger] v.images[i]).tag_ids.len() < i64::MAX,
{
    let imax = i64::MAX as int;
    let iids = image_ids_of(v.images);
    assert(iids.no_duplicates()) by {
        assert forall|a: int, b: int|
            0 <= a < iids.len() && 0 <= b < iids.len() && a != b implies iids[a] != iids[b] by {
            if a < b {
                assert(v.images[a].id < v.images[b].id);
            } else {
                assert(v.images[b].id < v.images[a].id);
            }
        }
    }
    lemma_distinct_ids_bound(iids, imax);
    let tids = tag_ids_of(v.tags);
    assert(tids.no_duplicates()) by {
        assert forall|a: int, b: int|
            0 <= a < tids.len() && 0 <= b < tids.len() && a != b implies tids[a] != tids[b] by {
            if a < b {
                assert(v.tags[a].id < v.tags[b].id);
            } else {
                assert(v.tags[b].id < v.tags[a].id);
            }
        }
    }
    lemma_distinct_ids_bound(tids, imax);
    assert forall|j: int| 0 <= j < v.tags.len() implies (#[trigger] v.tags[j]).image_ids.len()
        < i64::MAX by {
        assert forall|k: int| 0 <= k < v.tags[j].image_ids.len() implies 1 <= #[trigger] v.tags[j].image_ids[k]
            < imax by {
            let y = v.tags[j].image_ids[k];
            assert(v.tags[j].image_ids.contains(y));
            lemma_image_member(v, j, y);
        }
        lemma_distinct_ids_bound(v.tags[j].image_ids, imax);
    }
    assert forall|i: int| 0 <= i < v.images.len() implies (#[trigger] v.images[i]).tag_ids.len()
        < i64::MAX by {
        assert forall|k: int| 0 <= k < v.images[i].tag_ids.len() implies 1 <= #[trigger] v.images[i].tag_ids[k]
            < imax by {
            let x = v.images[i].tag_ids[k];
            assert(v.images[i].tag_ids.contains(x));
            lemma_tag_member(v, i, x);
        }
        lemma_distinct_ids_bound(v.images[i].tag_ids, imax);
    }
}

/// An image row whose path is not in the directory listing.
pub open spec fn not_on_disk_fn(disk: Seq<Seq<char>>) -> spec_fn(ImageView) -> bool {
    |iv: ImageView| !disk.contains(iv.path)
}

/// An image row's path.
pub open spec fn path_of_fn() -> spec_fn(ImageView) -> Seq<char> {
    |iv: ImageView| iv.path
}

/// A path the store does not know.
pub open spec fn unknown_path_fn(v: StoreView) -> spec_fn(Seq<char>) -> bool {
    |p: Seq<char>| !has_image_path(v.images, p)
}

/// The paths a reconciliation pass erases: known paths that are not in the
/// directory listing, by ascending image id.
pub open spec fn paths_to_remove(v: StoreView, disk: Seq<Seq<char>>) -> Seq<Seq<char>> {
    v.images.filter(not_on_disk_fn(disk)).map_values(path_of_fn())
}

/// The paths a reconciliation pass inserts: listed paths the store does not
/// know, in listing order.
pub open spec fn paths_to_add(v: StoreView, disk: Seq<Seq<char>>) -> Seq<Seq<char>> {
    disk.filter(unknown_path_fn(v))
}

/// The store knows exactly the listed paths.
pub open spec fn reconciled(v: StoreView, disk: Seq<Seq<char>>) -> bool {
    forall|p: Seq<char>| #[trigger] has_image_path(v.images, p) <==> disk.contains(p)
}

/// How erasing one image changes which paths the store knows, and that
/// every other image row survives unchanged.
pub proof fn lemma_erase_presence(v: StoreView, ii: int)
    requires
        store_wf(v),
        0 <= ii < v.images.len(),
    ensures
        forall|p: Seq<char>|
            #[trigger] has_image_path(erase_image_result(v, ii).images, p) <==> (has_image_path(
                v.images,
                p,
            ) && p != v.images[ii].path),
        forall|i: int|
            0 <= i < v.images.len() && i != ii ==> erase_image_result(v, ii).images.contains(
                #[trigger] v.images[i],
            ),
        forall|a: int|
            0 <= a < erase_image_result(v, ii).images.len() ==> v.images.contains(
                #[trigger] erase_image_result(v, ii).images[a],
            ),
{
    let w = erase_image_result(v, ii);
    v.images.remove_ensures(ii);
    assert forall|p: Seq<char>| #[trigger] has_image_path(w.images, p) <==> (has_image_path(
        v.images,
        p,
    ) && p != v.images[ii].path) by {
        if has_image_path(w.images, p) {
            let a = choose|a: int| 0 <= a < w.images.len() && (#[trigger] w.images[a]).path == p;
            let a0: int = if a < ii {
                a
            } else {
                a + 1
            };
            assert(w.images[a] == v.images[a0]);
            assert(has_image_path(v.images, p));
            if a0 < ii {
                assert(v.images[a0].path != v.images[ii].path);
            } else {
                assert(v.images[ii].path != v.images[a0].path);
            }
        }
        if has_image_path(v.images, p) && p != v.images[ii].path {
            let i0 = choose|i0: int| 0 <= i0 < v.images.len() && (#[trigger] v.images[i0]).path == p;
            assert(i0 != ii);
            let a: int = if i0 < ii {
                i0
            } else {
                i0 - 1
            };
            assert(w.images[a] == v.images[i0]);
            assert(has_image_path(w.images, p));
        }
    }
    assert forall|i: int| 0 <= i < v.images.len() && i != ii implies w.images.contains(
        #[trigger] v.images[i],
    ) by {
        let a: int = if i < ii {
            i
        } else {
            i - 1
        };
        assert(w.images[a] == v.images[i]);
    }
    assert forall|a: int| 0 <= a < w.images.len() implies v.images.contains(
        #[trigger] w.images[a],
    ) by {
        let a0: int = if a < ii {
            a
        } else {
            a + 1
        };
        assert(w.images[a] == v.images[a0]);
    }
}

/// The image row with one more tag id appended.
pub open spec fn image_with_tag(iv: ImageView, tag_id: i64) -> ImageView {
    ImageView {
        id: iv.id,
        path: iv.path,
        created_at_time: iv.created_at_time,
        tag_ids: iv.tag_ids.push(tag_id),
    }
}

/// The tag row with one more image id appended.
pub open spec fn tag_with_image(t: TagView, image_id: i64) -> TagView {
    TagView { id: t.id, name: t.name, image_ids: t.image_ids.push(image_id) }
}

/// The store after assigning the existing tag at index `jt` to the image
/// at index `ii`: the new edge is recorded on both sides.
pub open spec fn give_existing_result(v: StoreView, ii: int, jt: int) -> StoreView {
    StoreView {
        images: v.images.update(ii, image_with_tag(v.images[ii], v.tags[jt].id)),
        tags: v.tags.update(jt, tag_with_image(v.tags[jt], v.images[ii].id)),
        next_image_id: v.next_image_id,
        next_tag_id: v.next_tag_id,
    }
}

/// The store after assigning a tag with a fresh name to the image at index
/// `ii`: a tag row with the next tag id is created, carrying that one image.
pub open spec fn give_new_result(v: StoreView, ii: int, name: Seq<char>) -> StoreView {
    StoreView {
        images: v.images.update(ii, image_with_tag(v.images[ii], v.next_tag_id)),
        tags: v.tags.push(
            TagView { id: v.next_tag_id, name: name, image_ids: seq![v.images[ii].id] },
        ),
        next_image_id: v.next_image_id,
        next_tag_id: (v.next_tag_id + 1) as i64,
    }
}

/// The image id at a given index resolves back to that index.
pub proof fn lemma_image_id_index(v: StoreView, i: int)
    requires
        store_wf(v),
        0 <= i < v.images.len(),
    ensures
        has_image_id(v.images, v.images[i].id),
        image_index(v.images, v.images[i].id) == i,
{
    assert(has_image_id(v.images, v.images[i].id));
    let j = image_index(v.images, v.images[i].id);
    if j < i {
        assert(v.images[j].id < v.images[i].id);
    } else if j > i {
        assert(v.images[i].id < v.images[j].id);
    }
}

/// The image path at a given index resolves back to that index.
pub proof fn lemma_image_path_index(v: StoreView, i: int)
    requires
        store_wf(v),
        0 <= i < v.images.len(),
    ensures
        has_image_path(v.images, v.images[i].path),
        image_path_index(v.images, v.images[i].path) == i,
{
    assert(has_image_path(v.images, v.images[i].path));
    let j = image_path_index(v.images, v.images[i].path);
    if j < i {
        assert(v.images[j].path != v.images[i].path);
    } else if j > i {
        assert(v.images[i].path != v.images[j].path);
    }
}

/// The tag id at a given index resolves back to that index.
pub proof fn lemma_tag_id_index(v: StoreView, j: int)
    requires
        store_wf(v),
        0 <= j < v.tags.len(),
    ensures
        has_tag_id(v.tags, v.tags[j].id),
        tag_index(v.tags, v.tags[j].id) == j,
{
    assert(has_tag_id(v.tags, v.tags[j].id));
    let k = tag_index(v.tags, v.tags[j].id);
    if k < j {
        assert(v.tags[k].id < v.tags[j].id);
    } else if k > j {
        assert(v.tags[j].id < v.tags[k].id);
    }
}

/// The tag name at a given index resolves back to that index.
pub proof fn lemma_tag_name_index(v: StoreView, j: int)
    requires
        store_wf(v),
        0 <= j < v.tags.len(),
    ensures
        has_tag_name(v.tags, v.tags[j].name),
        tag_name_index(v.tags, v.tags[j].name) == j,
{
    assert(has_tag_name(v.tags, v.tags[j].name));
    let k = tag_name_index(v.tags, v.tags[j].name);
    if k < j {
        assert(v.tags[k].name != v.tags[j].name);
    } else if k > j {
        assert(v.tags[j].name != v.tags[k].name);
    }
}

/// A member of an image's tag list names an existing tag with an id below
/// the next tag id.
pub proof fn lemma_tag_member(v: StoreView, i: int, x: i64)
    requires
        store_wf(v),
        0 <= i < v.images.len(),
        v.images[i].tag_ids.contains(x),
    ensures
        has_tag_id(v.tags, x),
        1 <= x < v.next_tag_id,
{
    let k = choose|k: int| 0 <= k < v.images[i].tag_ids.len() && v.images[i].tag_ids[k] == x;
    assert(has_tag_id(v.tags, v.images[i].tag_ids[k]));
    let j = tag_index(v.tags, x);
    assert(0 <= j < v.tags.len() && v.tags[j].id == x);
}

/// A member of a tag's image list names an existing image with an id below
/// the next image id.
pub proof fn lemma_image_member(v: StoreView, j: int, x: i64)
    requires
        store_wf(v),
        0 <= j < v.tags.len(),
        v.tags[j].image_ids.contains(x),
    ensures
        has_image_id(v.images, x),
        1 <= x < v.next_image_id,
{
    let k = choose|k: int| 0 <= k < v.tags[j].image_ids.len() && v.tags[j].image_ids[k] == x;
    assert(has_image_id(v.images, v.tags[j].image_ids[k]));
    let i = image_index(v.images, x);
    assert(0 <= i < v.images.len() && v.images[i].id == x);
}

/// Appending a value that is not yet present keeps a list duplicate-free.
pub proof fn lemma_push_no_dup(l: Seq<i64>, x: i64)
    requires
        l.no_duplicates(),
        !l.contains(x),
    ensures
        l.push(x).no_duplicates(),
{
    let p = l.push(x);
    assert forall|i: int, j: int|
        0 <= i < p.len() && 0 <= j < p.len() && i != j implies p[i] != p[j] by {
        if i < l.len() && j < l.len() {
            assert(p[i] == l[i] && p[j] == l[j]);
        } else if i < l.len() {
            assert(p[j] == x);
            if l[i] == x {
                assert(l.contains(x));
            }
        } else {
            assert(p[i] == x);
            if j < l.len() && l[j] == x {
                assert(l.contains(x));
            }
        }
    }
}

/// Assigning an existing tag over a new edge preserves the store invariant.
pub proof fn lemma_give_existing_wf(v: StoreView, ii: int, jt: int)
    requires
        store_wf(v),
        0 <= ii < v.images.len(),
        0 <= jt < v.tags.len(),
        !v.images[ii].tag_ids.contains(v.tags[jt].id),
    ensures
        store_wf(give_existing_result(v, ii, jt)),
{
    let w = give_existing_result(v, ii, jt);
    let tid = v.tags[jt].id;
    let iid = v.images[ii].id;
    assert(!v.tags[jt].image_ids.contains(iid));
    assert(w.images[ii].id == iid && w.images[ii].path == v.images[ii].path);
    assert(w.tags[jt].id == tid && w.tags[jt].name == v.tags[jt].name);
    assert(forall|i: int|
        0 <= i < w.images.len() && i != ii ==> #[trigger] w.images[i] == v.images[i]);
    assert(forall|j: int| 0 <= j < w.tags.len() && j != jt ==> #[trigger] w.tags[j] == v.tags[j]);
    assert forall|i: int| 0 <= i < w.images.len() implies 1 <= (#[trigger] w.images[i]).id
        < w.next_image_id && w.images[i].id == v.images[i].id && w.images[i].path
        == v.images[i].path by {}
    assert forall|j: int| 0 <= j < w.tags.len() implies 1 <= (#[trigger] w.tags[j]).id
        < w.next_tag_id && w.tags[j].id == v.tags[j].id && w.tags[j].name == v.tags[j].name
        && valid_tag_name(w.tags[j].name) && w.tags[j].image_ids.len() >= 1 by {}
    assert forall|i: int| 0 <= i < w.images.len() implies (#[trigger] w.images[i]).tag_ids.no_duplicates() by {
        if i == ii {
            lemma_push_no_dup(v.images[ii].tag_ids, tid);
        }
    }
    assert forall|j: int| 0 <= j < w.tags.len() implies (#[trigger] w.tags[j]).image_ids.no_duplicates() by {
        if j == jt {
            lemma_push_no_dup(v.tags[jt].image_ids, iid);
        }
    }
    assert forall|i: int, k: int|
        0 <= i < w.images.len() && 0 <= k < (#[trigger] w.images[i]).tag_ids.len() implies has_tag_id(
        w.tags,
        #[trigger] w.images[i].tag_ids[k],
    ) by {
        let x = w.images[i].tag_ids[k];
        if i == ii && k == v.images[ii].tag_ids.len() {
            assert(x == tid);
            assert(w.tags[jt].id == tid);
        } else {
            assert(x == v.images[i].tag_ids[k]);
            assert(v.images[i].tag_ids.contains(x));
            lemma_tag_member(v, i, x);
            let j0 = tag_index(v.tags, x);
            assert(w.tags[j0].id == x);
        }
    }
    assert forall|j: int, k: int|
        0 <= j < w.tags.len() && 0 <= k < (#[trigger] w.tags[j]).image_ids.len() implies has_image_id(
        w.images,
        #[trigger] w.tags[j].image_ids[k],
    ) by {
        let x = w.tags[j].image_ids[k];
        if j == jt && k == v.tags[jt].image_ids.len() {
            assert(x == iid);
            assert(w.images[ii].id == iid);
        } else {
            assert(x == v.tags[j].image_ids[k]);
            assert(v.tags[j].image_ids.contains(x));
            lemma_image_member(v, j, x);
            let i0 = image_index(v.images, x);
            assert(w.images[i0].id == x);
        }
    }
    assert forall|i: int, j: int| 0 <= i < w.images.len() && 0 <= j < w.tags.len() implies (
    (#[trigger] w.images[i]).tag_ids.contains(w.tags[j].id) <==> (#[trigger] w.tags[j]).image_ids.contains(
        w.images[i].id,
    )) by {
        lemma_contains_push(v.images[ii].tag_ids, tid, w.tags[j].id);
        lemma_contains_push(v.tags[jt].image_ids, iid, w.images[i].id);
        if i != ii && j != jt {
            assert(w.images[i] == v.images[i] && w.tags[j] == v.tags[j]);
        } else if i == ii && j == jt {
            assert(w.images[i].tag_ids.contains(tid));
            assert(w.tags[j].image_ids.contains(iid));
        } else if i == ii {
            // j != jt: the appended tag id is jt's, distinct from tags[j].id
            if jt < j {
                assert(v.tags[jt].id < v.tags[j].id);
            } else {
                assert(v.tags[j].id < v.tags[jt].id);
            }
            assert(w.tags[j] == v.tags[j]);
            assert(w.images[i].tag_ids.contains(v.tags[j].id) == v.images[i].tag_ids.contains(
                v.tags[j].id,
            ));
        } else {
            // i != ii, j == jt: the appended image id is ii's, distinct from images[i].id
            if ii < i {
                assert(v.images[ii].id < v.images[i].id);
            } else {
                assert(v.images[i].id < v.images[ii].id);
            }
            assert(w.images[i] == v.images[i]);
            assert(w.tags[j].image_ids.contains(v.images[i].id) == v.tags[j].image_ids.contains(
                v.images[i].id,
            ));
        }
    }
}

/// Membership in a list with one value appended.
pub proof fn lemma_contains_push<A>(l: Seq<A>, x: A, y: A)
    ensures
        l.push(x).contains(y) <==> (l.contains(y) || y == x),
{
    let p = l.push(x);
    if p.contains(y) {
        let k = choose|k: int| 0 <= k < p.len() && p[k] == y;
        if k < l.len() {
            assert(l[k] == y);
            assert(l.contains(y));
        } else {
            assert(y == x);
        }
    }
    if l.contains(y) {
        let k = choose|k: int| 0 <= k < l.len() && l[k] == y;
        assert(p[k] == y);
        assert(p.contains(y));
    }
    if y == x {
        assert(p[l.len() as int] == y);
        assert(p.contains(y));
    }
}

/// Creating a fresh tag for a new edge preserves the store invariant.
pub proof fn lemma_give_new_wf(v: StoreView, ii: int, name: Seq<char>)
    requires
        store_wf(v),
        0 <= ii < v.images.len(),
        valid_tag_name(name),
        !has_tag_name(v.tags, name),
        v.next_tag_id < i64::MAX,
    ensures
        store_wf(give_new_result(v, ii, name)),
{
    let w = give_new_result(v, ii, name);
    let tid = v.next_tag_id;
    let iid = v.images[ii].id;
    let m = v.tags.len() as int;
    let newt = TagView { id: tid, name: name, image_ids: seq![iid] };
    assert(w.tags[m] == newt);
    assert(forall|i: int|
        0 <= i < w.images.len() && i != ii ==> #[trigger] w.images[i] == v.images[i]);
    assert(forall|j: int| 0 <= j < m ==> #[trigger] w.tags[j] == v.tags[j]);
    assert(w.images[ii].id == iid && w.images[ii].path == v.images[ii].path);
    assert(!v.images[ii].tag_ids.contains(tid)) by {
        if v.images[ii].tag_ids.contains(tid) {
            lemma_tag_member(v, ii, tid);
        }
    }
    // image relation
    assert forall|i: int| 0 <= i < w.images.len() implies 1 <= (#[trigger] w.images[i]).id
        < w.next_image_id && w.images[i].id == v.images[i].id && w.images[i].path
        == v.images[i].path by {}
    assert forall|i: int| 0 <= i < w.images.len() implies (#[trigger] w.images[i]).tag_ids.no_duplicates() by {
        if i == ii {
            lemma_push_no_dup(v.images[ii].tag_ids, tid);
        }
    }
    assert forall|i: int, k: int|
        0 <= i < w.images.len() && 0 <= k < (#[trigger] w.images[i]).tag_ids.len() implies has_tag_id(
        w.tags,
        #[trigger] w.images[i].tag_ids[k],
    ) by {
        let x = w.images[i].tag_ids[k];
        if i == ii && k == v.images[ii].tag_ids.len() {
            assert(x == tid);
            assert(w.tags[m].id == tid);
        } else {
            assert(x == v.images[i].tag_ids[k]);
            assert(v.images[i].tag_ids.contains(x));
            lemma_tag_member(v, i, x);
            let j0 = tag_index(v.tags, x);
            assert(w.tags[j0].id == x);
        }
    }
    // tag relation
    assert(newt.image_ids.no_duplicates());
    assert(newt.image_ids.len() == 1);
    assert forall|j1: int, j2: int| 0 <= j1 < j2 < w.tags.len() implies (#[trigger] w.tags[j1]).id
        < (#[trigger] w.tags[j2]).id by {
        if j2 == m {
            assert(w.tags[j1] == v.tags[j1]);
            assert(v.tags[j1].id < tid);
        }
    }
    assert forall|j1: int, j2: int| 0 <= j1 < j2 < w.tags.len() implies (#[trigger] w.tags[j1]).name
        != (#[trigger] w.tags[j2]).name by {
        if j2 == m {
            assert(w.tags[j1] == v.tags[j1]);
            if v.tags[j1].name == name {
                assert(has_tag_name(v.tags, name));
            }
        }
    }
    assert forall|j: int| 0 <= j < w.tags.len() implies 1 <= (#[trigger] w.tags[j]).id
        < w.next_tag_id && valid_tag_name(w.tags[j].name) && w.tags[j].image_ids.len() >= 1
        && w.tags[j].image_ids.no_duplicates() by {
        if j < m {
            assert(w.tags[j] == v.tags[j]);
        } else {
            assert(w.tags[j] == newt);
        }
    }
    assert forall|j: int, k: int|
        0 <= j < w.tags.len() && 0 <= k < (#[trigger] w.tags[j]).image_ids.len() implies has_image_id(
        w.images,
        #[trigger] w.tags[j].image_ids[k],
    ) by {
        if j == m {
            assert(w.tags[j].image_ids[k] == iid);
            assert(w.images[ii].id == iid);
        } else {
            assert(w.tags[j] == v.tags[j]);
            let x = v.tags[j].image_ids[k];
            assert(v.tags[j].image_ids.contains(x));
            lemma_image_member(v, j, x);
            let i0 = image_index(v.images, x);
            assert(w.images[i0].id == x);
        }
    }
    // symmetry
    assert forall|i: int, j: int| 0 <= i < w.images.len() && 0 <= j < w.tags.len() implies (
    (#[trigger] w.images[i]).tag_ids.contains(w.tags[j].id) <==> (#[trigger] w.tags[j]).image_ids.contains(
        w.images[i].id,
    )) by {
        lemma_contains_push(v.images[ii].tag_ids, tid, w.tags[j].id);
        if j == m {
            // the fresh tag row
            assert(w.tags[j] == newt);
            if i == ii {
                assert(w.images[i].tag_ids.contains(tid));
                assert(newt.image_ids[0] == iid);
                assert(newt.image_ids.contains(iid));
            } else {
                assert(w.images[i] == v.images[i]);
                assert(!v.images[i].tag_ids.contains(tid)) by {
                    if v.images[i].tag_ids.contains(tid) {
                        lemma_tag_member(v, i, tid);
                    }
                }
                if ii < i {
                    assert(v.images[ii].id < v.images[i].id);
                } else {
                    assert(v.images[i].id < v.images[ii].id);
                }
                assert(!newt.image_ids.contains(w.images[i].id)) by {
                    if newt.image_ids.contains(w.images[i].id) {
                        let k = choose|k: int|
                            0 <= k < newt.image_ids.len() && newt.image_ids[k] == w.images[i].id;
                        assert(newt.image_ids[k] == iid);
                    }
                }
            }
        } else {
            assert(w.tags[j] == v.tags[j]);
            assert(v.tags[j].id < tid);
            if i == ii {
                assert(w.images[i].tag_ids.contains(v.tags[j].id) == v.images[i].tag_ids.contains(
                    v.tags[j].id,
                ));
            } else {
                assert(w.images[i] == v.images[i]);
            }
        }
    }
}

/// The tag row with the given image id taken out of its list.
pub open spec fn tag_without_image(t: TagView, image_id: i64) -> TagView {
    TagView { id: t.id, name: t.name, image_ids: t.image_ids.remove_value(image_id) }
}

/// The image row with the given tag id taken out of its list.
pub open spec fn image_without_tag(iv: ImageView, tag_id: i64) -> ImageView {
    ImageView {
        id: iv.id,
        path: iv.path,
        created_at_time: iv.created_at_time,
        tag_ids: iv.tag_ids.remove_value(tag_id),
    }
}

/// The store after removing the edge between the image at index `ii` and
/// the tag at index `jt`: the edge leaves both sides, and a tag left with
/// no image is garbage-collected.
pub open spec fn remove_tag_result(v: StoreView, ii: int, jt: int) -> StoreView {
    let img2 = image_without_tag(v.images[ii], v.tags[jt].id);
    let tag2 = tag_without_image(v.tags[jt], v.images[ii].id);
    StoreView {
        images: v.images.update(ii, img2),
        tags: if tag2.image_ids.len() == 0 {
            v.tags.remove(jt)
        } else {
            v.tags.update(jt, tag2)
        },
        next_image_id: v.next_image_id,
        next_tag_id: v.next_tag_id,
    }
}

/// Removing a value at its first position is what `remove_value` does.
pub proof fn lemma_remove_value_is_remove(l: Seq<i64>, x: i64, pos: int)
    requires
        0 <= pos < l.len(),
        l[pos] == x,
        forall|k: int| 0 <= k < pos ==> l[k] != x,
    ensures
        l.remove_value(x) == l.remove(pos),
{
    assert(l.contains(x));
    l.index_of_first_ensures(x);
    let index = l.index_of_first(x).unwrap();
    if index < pos {
        assert(l[index] != x);
    } else if index > pos {
        assert(l[pos] != x);
    }
}

/// Removing a present value from a duplicate-free list: the length drops by
/// one, the value is gone, every other value stays, and the list remains
/// duplicate-free.
pub proof fn lemma_remove_value_no_dup(l: Seq<i64>, x: i64)
    requires
        l.no_duplicates(),
        l.contains(x),
    ensures
        l.remove_value(x).len() == l.len() - 1,
        l.remove_value(x).no_duplicates(),
        !l.remove_value(x).contains(x),
        forall|y: i64| y != x ==> (l.remove_value(x).contains(y) == l.contains(y)),
{
    l.index_of_first_ensures(x);
    let i = l.index_of_first(x).unwrap();
    let r = l.remove_value(x);
    assert(r == l.remove(i));
    l.remove_ensures(i);
    assert forall|a: int, b: int|
        0 <= a < r.len() && 0 <= b < r.len() && a != b implies r[a] != r[b] by {
        let a0: int = if a < i {
            a
        } else {
            a + 1
        };
        let b0: int = if b < i {
            b
        } else {
            b + 1
        };
        assert(r[a] == l[a0] && r[b] == l[b0]);
    }
    assert forall|k: int| 0 <= k < r.len() implies r[k] != x by {
        let k0: int = if k < i {
            k
        } else {
            k + 1
        };
        assert(r[k] == l[k0]);
        if l[k0] == x {
            assert(l[i] == l[k0]);
        }
    }
    if r.contains(x) {
        let k = choose|k: int| 0 <= k < r.len() && r[k] == x;
        assert(false);
    }
    assert forall|y: i64| y != x implies (r.contains(y) == l.contains(y)) by {
        if r.contains(y) {
            let k = choose|k: int| 0 <= k < r.len() && r[k] == y;
            let k0: int = if k < i {
                k
            } else {
                k + 1
            };
            assert(l[k0] == y);
            assert(l.contains(y));
        }
        if l.contains(y) {
            let k0 = choose|k0: int| 0 <= k0 < l.len() && l[k0] == y;
            let k: int = if k0 < i {
                k0
            } else {
                k0 - 1
            };
            assert(r[k] == y);
            assert(r.contains(y));
        }
    }
}

/// Removing an existing edge preserves the store invariant.
pub proof fn lemma_remove_tag_wf(v: StoreView, ii: int, jt: int)
    requires
        store_wf(v),
        0 <= ii < v.images.len(),
        0 <= jt < v.tags.len(),
        v.images[ii].tag_ids.contains(v.tags[jt].id),
    ensures
        store_wf(remove_tag_result(v, ii, jt)),
{
    let w = remove_tag_result(v, ii, jt);
    let tid = v.tags[jt].id;
    let iid = v.images[ii].id;
    let img2 = image_without_tag(v.images[ii], tid);
    let tag2 = tag_without_image(v.tags[jt], iid);
    assert(v.tags[jt].image_ids.contains(iid));
    lemma_remove_value_no_dup(v.images[ii].tag_ids, tid);
    lemma_remove_value_no_dup(v.tags[jt].image_ids, iid);
    assert forall|j: int| 0 <= j < v.tags.len() && j != jt implies (#[trigger] v.tags[j]).id
        != tid by {
        if j < jt {
            assert(v.tags[j].id < v.tags[jt].id);
        } else {
            assert(v.tags[jt].id < v.tags[j].id);
        }
    }
    assert forall|i: int| 0 <= i < v.images.len() && i != ii implies (#[trigger] v.images[i]).id
        != iid by {
        if i < ii {
            assert(v.images[i].id < v.images[ii].id);
        } else {
            assert(v.images[ii].id < v.images[i].id);
        }
    }
    // the image relation changes only at ii, keeping id and path
    assert(forall|i: int|
        0 <= i < w.images.len() && i != ii ==> #[trigger] w.images[i] == v.images[i]);
    assert(w.images[ii] == img2 && img2.id == iid && img2.path == v.images[ii].path);
    assert forall|i: int| 0 <= i < w.images.len() implies (#[trigger] w.images[i]).id
        == v.images[i].id && w.images[i].path == v.images[i].path
        && w.images[i].tag_ids.no_duplicates() by {
        if i != ii {
            assert(w.images[i] == v.images[i]);
        }
    }
    if tag2.image_ids.len() == 0 {
        // the tag row is garbage-collected
        assert(w.tags == v.tags.remove(jt));
        v.tags.remove_ensures(jt);
        assert(v.tags[jt].image_ids.len() == 1);
        // no image other than ii carries the collected tag
        assert forall|i: int|
            0 <= i < v.images.len() && i != ii implies !(#[trigger] v.images[i]).tag_ids.contains(
            tid,
        ) by {
            if v.images[i].tag_ids.contains(tid) {
                assert(v.tags[jt].image_ids.contains(v.images[i].id));
                let k = choose|k: int|
                    0 <= k < v.tags[jt].image_ids.len() && v.tags[jt].image_ids[k]
                        == v.images[i].id;
                let k2 = choose|k2: int|
                    0 <= k2 < v.tags[jt].image_ids.len() && v.tags[jt].image_ids[k2] == iid;
                assert(k == 0 && k2 == 0);
            }
        }
        // the surviving tag rows are the old rows with jt skipped
        assert forall|j: int| 0 <= j < w.tags.len() implies #[trigger] w.tags[j] == (if j < jt {
            v.tags[j]
        } else {
            v.tags[j + 1]
        }) by {}
        assert forall|j1: int, j2: int| 0 <= j1 < j2 < w.tags.len() implies (
        #[trigger] w.tags[j1]).id < (#[trigger] w.tags[j2]).id && w.tags[j1].name != w.tags[j2].name by {
            let a: int = if j1 < jt {
                j1
            } else {
                j1 + 1
            };
            let b: int = if j2 < jt {
                j2
            } else {
                j2 + 1
            };
            assert(w.tags[j1] == v.tags[a] && w.tags[j2] == v.tags[b]);
        }
        assert forall|j: int| 0 <= j < w.tags.len() implies 1 <= (#[trigger] w.tags[j]).id
            < w.next_tag_id && valid_tag_name(w.tags[j].name) && w.tags[j].image_ids.len() >= 1
            && w.tags[j].image_ids.no_duplicates() by {
            let a: int = if j < jt {
                j
            } else {
                j + 1
            };
            assert(w.tags[j] == v.tags[a]);
        }
        assert forall|i: int, k: int|
            0 <= i < w.images.len() && 0 <= k < (#[trigger] w.images[i]).tag_ids.len() implies has_tag_id(
            w.tags,
            #[trigger] w.images[i].tag_ids[k],
        ) by {
            let x = w.images[i].tag_ids[k];
            assert(v.images[i].tag_ids.contains(x)) by {
                if i == ii {
                    assert(img2.tag_ids[k] == x);
                    assert(img2.tag_ids.contains(x));
                } else {
                    assert(w.images[i] == v.images[i]);
                }
            }
            assert(x != tid) by {
                if i == ii {
                    assert(!img2.tag_ids.contains(tid));
                    if x == tid {
                        assert(img2.tag_ids.contains(x));
                    }
                }
            }
            lemma_tag_member(v, i, x);
            let j0 = tag_index(v.tags, x);
            assert(v.tags[j0].id == x);
            assert(j0 != jt);
            let jw: int = if j0 < jt {
                j0
            } else {
                j0 - 1
            };
            assert(w.tags[jw] == v.tags[j0]);
            assert(has_tag_id(w.tags, x));
        }
        assert forall|j: int, k: int|
            0 <= j < w.tags.len() && 0 <= k < (#[trigger] w.tags[j]).image_ids.len() implies has_image_id(
            w.images,
            #[trigger] w.tags[j].image_ids[k],
        ) by {
            let a: int = if j < jt {
                j
            } else {
                j + 1
            };
            assert(w.tags[j] == v.tags[a]);
            let y = v.tags[a].image_ids[k];
            assert(v.tags[a].image_ids.contains(y));
            lemma_image_member(v, a, y);
            let i0 = image_index(v.images, y);
            assert(w.images[i0].id == y);
        }
        assert forall|i: int, j: int| 0 <= i < w.images.len() && 0 <= j < w.tags.len() implies (
        (#[trigger] w.images[i]).tag_ids.contains(w.tags[j].id)
            <==> (#[trigger] w.tags[j]).image_ids.contains(w.images[i].id)) by {
            let a: int = if j < jt {
                j
            } else {
                j + 1
            };
            assert(w.tags[j] == v.tags[a]);
            if i == ii {
                assert(v.tags[a].id != tid);
                assert(img2.tag_ids.contains(v.tags[a].id) == v.images[ii].tag_ids.contains(
                    v.tags[a].id,
                ));
            } else {
                assert(w.images[i] == v.images[i]);
            }
        }
    } else {
        // the tag row stays, with the image id removed
        assert(w.tags == v.tags.update(jt, tag2));
        assert(forall|j: int| 0 <= j < w.tags.len() && j != jt ==> #[trigger] w.tags[j] == v.tags[j]);
        assert(w.tags[jt] == tag2 && tag2.id == tid && tag2.name == v.tags[jt].name);
        assert forall|j: int| 0 <= j < w.tags.len() implies (#[trigger] w.tags[j]).id
            == v.tags[j].id && w.tags[j].name == v.tags[j].name && w.tags[j].image_ids.len() >= 1
            && w.tags[j].image_ids.no_duplicates() by {
            if j != jt {
                assert(w.tags[j] == v.tags[j]);
            }
        }
        assert forall|i: int, k: int|
            0 <= i < w.images.len() && 0 <= k < (#[trigger] w.images[i]).tag_ids.len() implies has_tag_id(
            w.tags,
            #[trigger] w.images[i].tag_ids[k],
        ) by {
            let x = w.images[i].tag_ids[k];
            assert(v.images[i].tag_ids.contains(x)) by {
                if i == ii {
                    assert(img2.tag_ids[k] == x);
                    assert(img2.tag_ids.contains(x));
                } else {
                    assert(w.images[i] == v.images[i]);
                }
            }
            lemma_tag_member(v, i, x);
            let j0 = tag_index(v.tags, x);
            assert(v.tags[j0].id == x);
            assert(w.tags[j0].id == x);
            assert(has_tag_id(w.tags, x));
        }
        assert forall|j: int, k: int|
            0 <= j < w.tags.len() && 0 <= k < (#[trigger] w.tags[j]).image_ids.len() implies has_image_id(
            w.images,
            #[trigger] w.tags[j].image_ids[k],
        ) by {
            let y = w.tags[j].image_ids[k];
            assert(v.tags[j].image_ids.contains(y)) by {
                if j == jt {
                    assert(tag2.image_ids[k] == y);
                    assert(tag2.image_ids.contains(y));
                } else {
                    assert(w.tags[j] == v.tags[j]);
                }
            }
            lemma_image_member(v, j, y);
            let i0 = image_index(v.images, y);
            assert(v.images[i0].id == y);
            assert(w.images[i0].id == y);
            assert(has_image_id(w.images, y));
        }
        assert forall|i: int, j: int| 0 <= i < w.images.len() && 0 <= j < w.tags.len() implies (
        (#[trigger] w.images[i]).tag_ids.contains(w.tags[j].id)
            <==> (#[trigger] w.tags[j]).image_ids.contains(w.images[i].id)) by {
            if i == ii && j == jt {
                assert(!img2.tag_ids.contains(tid));
                assert(!tag2.image_ids.contains(iid));
            } else if i == ii {
                assert(w.tags[j] == v.tags[j]);
                assert(v.tags[j].id != tid);
                assert(img2.tag_ids.contains(v.tags[j].id) == v.images[ii].tag_ids.contains(
                    v.tags[j].id,
                ));
            } else if j == jt {
                assert(w.images[i] == v.images[i]);
                assert(v.images[i].id != iid);
                assert(tag2.image_ids.contains(v.images[i].id) == v.tags[jt].image_ids.contains(
                    v.images[i].id,
                ));
            } else {
                assert(w.images[i] == v.images[i] && w.tags[j] == v.tags[j]);
            }
        }
    }
}

/// What erasing one image does to a single tag row: the image id leaves
/// the list, and a tag left with no image is dropped.
pub open spec fn erase_step_fn(image_id: i64) -> spec_fn(TagView) -> Option<TagView> {
    |t: TagView|
        {
            let t2 = tag_without_image(t, image_id);
            if t2.image_ids.len() == 0 {
                None
            } else {
                Some(t2)
            }
        }
}

/// What erasing one image does to the whole tag relation.
pub open spec fn erase_image_tags(tags: Seq<TagView>, image_id: i64) -> Seq<TagView> {
    tags.filter_map(erase_step_fn(image_id))
}

/// The store after erasing the image at index `ii`: its row leaves the
/// image relation, its id leaves every tag's list, and tags left with no
/// image are garbage-collected.
pub open spec fn erase_image_result(v: StoreView, ii: int) -> StoreView {
    StoreView {
        images: v.images.remove(ii),
        tags: erase_image_tags(v.tags, v.images[ii].id),
        next_image_id: v.next_image_id,
        next_tag_id: v.next_tag_id,
    }
}

/// Removing a value that is absent leaves the list unchanged.
pub proof fn lemma_remove_value_absent(l: Seq<i64>, x: i64)
    requires
        !l.contains(x),
    ensures
        l.remove_value(x) == l,
{
    l.index_of_first_ensures(x);
}

/// `remove_value` on a duplicate-free list, present or not: the list stays
/// duplicate-free, the value is gone, and every other value stays.
pub proof fn lemma_remove_value_props(l: Seq<i64>, x: i64)
    requires
        l.no_duplicates(),
    ensures
        l.remove_value(x).no_duplicates(),
        !l.remove_value(x).contains(x),
        forall|y: i64| y != x ==> (l.remove_value(x).contains(y) == l.contains(y)),
        l.contains(x) ==> l.remove_value(x).len() == l.len() - 1,
        !l.contains(x) ==> l.remove_value(x) == l,
{
    if l.contains(x) {
        lemma_remove_value_no_dup(l, x);
    } else {
        lemma_remove_value_absent(l, x);
    }
}

/// Erasing an image id from an id-ascending tag relation: every surviving
/// row is some original row with the id removed, every original row that
/// keeps an image survives, and the result is id-ascending again.
pub proof fn lemma_erase_tags_props(tags: Seq<TagView>, image_id: i64)
    requires
        forall|j1: int, j2: int|
            0 <= j1 < j2 < tags.len() ==> (#[trigger] tags[j1]).id < (#[trigger] tags[j2]).id,
    ensures
        erase_image_tags(tags, image_id).len() <= tags.len(),
        forall|k: int|
            #![trigger erase_image_tags(tags, image_id)[k]]
            0 <= k < erase_image_tags(tags, image_id).len() ==> exists|j: int|
                0 <= j < tags.len() && (#[trigger] tag_without_image(tags[j], image_id))
                    == erase_image_tags(tags, image_id)[k] && tag_without_image(
                    tags[j],
                    image_id,
                ).image_ids.len() > 0,
        forall|j: int|
            0 <= j < tags.len() && tag_without_image(tags[j], image_id).image_ids.len() > 0
                ==> erase_image_tags(tags, image_id).contains(
                tag_without_image(#[trigger] tags[j], image_id),
            ),
        forall|k1: int, k2: int|
            0 <= k1 < k2 < erase_image_tags(tags, image_id).len() ==> (#[trigger] erase_image_tags(
                tags,
                image_id,
            )[k1]).id < (#[trigger] erase_image_tags(tags, image_id)[k2]).id,
    decreases tags.len(),
{
    let f = erase_step_fn(image_id);
    let r = erase_image_tags(tags, image_id);
    if tags.len() == 0 {
        assert(r =~= Seq::<TagView>::empty());
    } else {
        let rest = tags.drop_last();
        lemma_erase_tags_props(rest, image_id);
        let rr = erase_image_tags(rest, image_id);
        let t = tags.last();
        let t2 = tag_without_image(t, image_id);
        assert(f(t) == (if t2.image_ids.len() == 0 {
            None::<TagView>
        } else {
            Some(t2)
        }));
        assert(forall|j: int| 0 <= j < rest.len() ==> #[trigger] rest[j] == tags[j]);
        if t2.image_ids.len() == 0 {
            assert(r == rr);
            assert forall|k: int| #![trigger r[k]] 0 <= k < r.len() implies exists|j: int|
                0 <= j < tags.len() && (#[trigger] tag_without_image(tags[j], image_id)) == r[k]
                    && tag_without_image(tags[j], image_id).image_ids.len() > 0 by {
                let j0 = choose|j0: int|
                    0 <= j0 < rest.len() && (#[trigger] tag_without_image(rest[j0], image_id))
                        == rr[k] && tag_without_image(rest[j0], image_id).image_ids.len() > 0;
                assert(tag_without_image(tags[j0], image_id) == r[k]);
            }
            assert forall|j: int|
                0 <= j < tags.len() && tag_without_image(tags[j], image_id).image_ids.len()
                    > 0 implies r.contains(tag_without_image(#[trigger] tags[j], image_id)) by {
                assert(j < tags.len() - 1);
                assert(rest[j] == tags[j]);
                assert(rr.contains(tag_without_image(rest[j], image_id)));
            }
        } else {
            assert(r == rr + seq![t2]);
            assert(forall|k: int| 0 <= k < rr.len() ==> #[trigger] r[k] == rr[k]);
            assert(r[rr.len() as int] == t2);
            assert forall|k: int| #![trigger r[k]] 0 <= k < r.len() implies exists|j: int|
                0 <= j < tags.len() && (#[trigger] tag_without_image(tags[j], image_id)) == r[k]
                    && tag_without_image(tags[j], image_id).image_ids.len() > 0 by {
                if k < rr.len() {
                    let j0 = choose|j0: int|
                        0 <= j0 < rest.len() && (#[trigger] tag_without_image(rest[j0], image_id))
                            == rr[k] && tag_without_image(rest[j0], image_id).image_ids.len() > 0;
                    assert(tag_without_image(tags[j0], image_id) == r[k]);
                } else {
                    assert(tag_without_image(tags[tags.len() - 1], image_id) == r[k]);
                }
            }
            assert forall|j: int|
                0 <= j < tags.len() && tag_without_image(tags[j], image_id).image_ids.len()
                    > 0 implies r.contains(tag_without_image(#[trigger] tags[j], image_id)) by {
                if j < tags.len() - 1 {
                    assert(rest[j] == tags[j]);
                    assert(rr.contains(tag_without_image(rest[j], image_id)));
                    let k0 = choose|k0: int|
                        0 <= k0 < rr.len() && rr[k0] == tag_without_image(rest[j], image_id);
                    assert(r[k0] == tag_without_image(tags[j], image_id));
                } else {
                    assert(r[rr.len() as int] == tag_without_image(tags[j], image_id));
                }
            }
            assert forall|k1: int, k2: int| 0 <= k1 < k2 < r.len() implies (#[trigger] r[k1]).id
                < (#[trigger] r[k2]).id by {
                if k2 < rr.len() {
                    assert(rr[k1].id < rr[k2].id);
                } else {
                    assert(r[k2] == t2);
                    let j1 = choose|j1: int|
                        0 <= j1 < rest.len() && (#[trigger] tag_without_image(rest[j1], image_id))
                            == rr[k1] && tag_without_image(rest[j1], image_id).image_ids.len() > 0;
                    assert(r[k1].id == tags[j1].id);
                    assert(tags[j1].id < tags[tags.len() - 1].id);
                }
            }
        }
    }
}

/// Erasing an image preserves the store invariant.
pub proof fn lemma_erase_image_wf(v: StoreView, ii: int)
    requires
        store_wf(v),
        0 <= ii < v.images.len(),
    ensures
        store_wf(erase_image_result(v, ii)),
{
    let w = erase_image_result(v, ii);
    let iid = v.images[ii].id;
    let r = erase_image_tags(v.tags, iid);
    lemma_erase_tags_props(v.tags, iid);
    v.images.remove_ensures(ii);
    assert forall|i: int| 0 <= i < w.images.len() implies #[trigger] w.images[i] == (if i < ii {
        v.images[i]
    } else {
        v.images[i + 1]
    }) by {}
    assert forall|i: int| 0 <= i < v.images.len() && i != ii implies (#[trigger] v.images[i]).id
        != iid by {
        if i < ii {
            assert(v.images[i].id < v.images[ii].id);
        } else {
            assert(v.images[ii].id < v.images[i].id);
        }
    }
    // the image relation after removal
    assert forall|i1: int, i2: int| 0 <= i1 < i2 < w.images.len() implies (
    #[trigger] w.images[i1]).id < (#[trigger] w.images[i2]).id && w.images[i1].path
        != w.images[i2].path by {
        let a: int = if i1 < ii {
            i1
        } else {
            i1 + 1
        };
        let b: int = if i2 < ii {
            i2
        } else {
            i2 + 1
        };
        assert(w.images[i1] == v.images[a] && w.images[i2] == v.images[b]);
    }
    assert forall|i: int| 0 <= i < w.images.len() implies 1 <= (#[trigger] w.images[i]).id
        < w.next_image_id && w.images[i].tag_ids.no_duplicates() by {
        let a: int = if i < ii {
            i
        } else {
            i + 1
        };
        assert(w.images[i] == v.images[a]);
    }
    // members of surviving images' tag lists still name surviving tags
    assert forall|i: int, k: int|
        0 <= i < w.images.len() && 0 <= k < (#[trigger] w.images[i]).tag_ids.len() implies has_tag_id(
        w.tags,
        #[trigger] w.images[i].tag_ids[k],
    ) by {
        let a: int = if i < ii {
            i
        } else {
            i + 1
        };
        assert(w.images[i] == v.images[a]);
        let x = v.images[a].tag_ids[k];
        assert(v.images[a].tag_ids.contains(x));
        lemma_tag_member(v, a, x);
        let j0 = tag_index(v.tags, x);
        assert(v.tags[j0].id == x);
        // the tag survives: image a still references it
        assert(v.images[a].tag_ids.contains(v.tags[j0].id));
        assert(v.tags[j0].image_ids.contains(v.images[a].id));
        lemma_remove_value_props(v.tags[j0].image_ids, iid);
        let t2 = tag_without_image(v.tags[j0], iid);
        assert(v.images[a].id != iid);
        assert(t2.image_ids.contains(v.images[a].id));
        let km = choose|km: int| 0 <= km < t2.image_ids.len() && t2.image_ids[km] == v.images[a].id;
        assert(t2.image_ids.len() > 0);
        assert(r.contains(t2));
        let k2 = choose|k2: int| 0 <= k2 < r.len() && r[k2] == t2;
        assert(w.tags[k2].id == x);
        assert(has_tag_id(w.tags, x));
    }
    // the tag relation after erasure
    assert forall|k: int| 0 <= k < w.tags.len() implies 1 <= (#[trigger] w.tags[k]).id
        < w.next_tag_id && valid_tag_name(w.tags[k].name) && w.tags[k].image_ids.len() >= 1
        && w.tags[k].image_ids.no_duplicates() by {
        let j = choose|j: int|
            0 <= j < v.tags.len() && (#[trigger] tag_without_image(v.tags[j], iid)) == r[k]
                && tag_without_image(v.tags[j], iid).image_ids.len() > 0;
        lemma_remove_value_props(v.tags[j].image_ids, iid);
    }
    assert forall|k1: int, k2: int| 0 <= k1 < k2 < w.tags.len() implies (
    #[trigger] w.tags[k1]).name != (#[trigger] w.tags[k2]).name by {
        let j1 = choose|j1: int|
            0 <= j1 < v.tags.len() && (#[trigger] tag_without_image(v.tags[j1], iid)) == r[k1]
                && tag_without_image(v.tags[j1], iid).image_ids.len() > 0;
        let j2 = choose|j2: int|
            0 <= j2 < v.tags.len() && (#[trigger] tag_without_image(v.tags[j2], iid)) == r[k2]
                && tag_without_image(v.tags[j2], iid).image_ids.len() > 0;
        assert(r[k1].id != r[k2].id);
        assert(v.tags[j1].id != v.tags[j2].id);
        assert(j1 != j2);
        if j1 < j2 {
            assert(v.tags[j1].name != v.tags[j2].name);
        } else {
            assert(v.tags[j2].name != v.tags[j1].name);
        }
    }
    assert forall|k: int, m: int|
        0 <= k < w.tags.len() && 0 <= m < (#[trigger] w.tags[k]).image_ids.len() implies has_image_id(
        w.images,
        #[trigger] w.tags[k].image_ids[m],
    ) by {
        let j = choose|j: int|
            0 <= j < v.tags.len() && (#[trigger] tag_without_image(v.tags[j], iid)) == r[k]
                && tag_without_image(v.tags[j], iid).image_ids.len() > 0;
        let t2 = tag_without_image(v.tags[j], iid);
        let y = w.tags[k].image_ids[m];
        assert(t2.image_ids.contains(y));
        lemma_remove_value_props(v.tags[j].image_ids, iid);
        assert(y != iid);
        assert(v.tags[j].image_ids.contains(y));
        lemma_image_member(v, j, y);
        let i0 = image_index(v.images, y);
        assert(v.images[i0].id == y);
        assert(i0 != ii);
        let iw: int = if i0 < ii {
            i0
        } else {
            i0 - 1
        };
        assert(w.images[iw] == v.images[i0]);
        assert(has_image_id(w.images, y));
    }
    // symmetry of the surviving edges
    assert forall|i: int, k: int| 0 <= i < w.images.len() && 0 <= k < w.tags.len() implies (
    (#[trigger] w.images[i]).tag_ids.contains(w.tags[k].id) <==> (#[trigger] w.tags[k]).image_ids.contains(
        w.images[i].id,
    )) by {
        let a: int = if i < ii {
            i
        } else {
            i + 1
        };
        assert(w.images[i] == v.images[a]);
        let j = choose|j: int|
            0 <= j < v.tags.len() && (#[trigger] tag_without_image(v.tags[j], iid)) == r[k]
                && tag_without_image(v.tags[j], iid).image_ids.len() > 0;
        let t2 = tag_without_image(v.tags[j], iid);
        assert(w.tags[k] == t2 && t2.id == v.tags[j].id);
        lemma_remove_value_props(v.tags[j].image_ids, iid);
        assert(v.images[a].id != iid);
        assert(t2.image_ids.contains(v.images[a].id) == v.tags[j].image_ids.contains(
            v.images[a].id,
        ));
        assert(v.images[a].tag_ids.contains(v.tags[j].id) <==> v.tags[j].image_ids.contains(
            v.images[a].id,
        ));
    }
}

} // verus!
