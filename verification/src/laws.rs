//! The store's laws, stated and proved once over the model.
//!
//! Every operation of [`crate::store::TifariDb`] ensures that the store
//! stays well-formed (`store_wf`), so each law below holds after every
//! committed operation.

use vstd::prelude::*;

use crate::model::{
    queue_view, search_view, store_wf, untagged_fn, StoreView, TagView,
};
use crate::models::Image;
use crate::store::images_match_views;

verus! {

/// Symmetry: a tag stands in an image's membership set exactly when the
/// image stands in that tag's membership set.
pub proof fn lemma_edge_symmetry(v: StoreView, i: int, j: int)
    requires
        store_wf(v),
        0 <= i < v.images.len(),
        0 <= j < v.tags.len(),
    ensures
        v.images[i].tag_ids.contains(v.tags[j].id) <==> v.tags[j].image_ids.contains(
            v.images[i].id,
        ),
{
}

/// No orphans: every tag the store holds — and therefore every tag its
/// listing reports, with `image_ids.len()` as its usage count — is carried
/// by at least one image.
pub proof fn lemma_no_orphan_tags(v: StoreView, j: int)
    requires
        store_wf(v),
        0 <= j < v.tags.len(),
    ensures
        (#[trigger] v.tags[j]).image_ids.len() > 0,
{
}

/// Queue correctness: an image stands in the tag queue exactly when its
/// membership set is empty.
pub proof fn lemma_queue_correctness(v: StoreView, i: int)
    requires
        store_wf(v),
        0 <= i < v.images.len(),
    ensures
        queue_view(v).contains(v.images[i]) <==> v.images[i].tag_ids.len() == 0,
{
    let rev = v.images.reverse();
    let q = queue_view(v);
    let ri = rev.len() - 1 - i;
    assert(rev[ri] == v.images[i]);
    if v.images[i].tag_ids.len() == 0 {
        assert(untagged_fn()(rev[ri]));
        rev.lemma_filter_contains(untagged_fn(), ri);
    }
    if q.contains(v.images[i]) {
        let k = choose|k: int| 0 <= k < q.len() && q[k] == v.images[i];
        rev.lemma_filter_pred(untagged_fn(), k);
    }
}

/// Pagination consistency: the page `[offset, offset + limit)` of a search
/// is exactly that slice of the full, unpaged result list.
pub proof fn lemma_pagination_consistency(
    ms: Seq<Image>,
    v: StoreView,
    inc: Seq<Seq<char>>,
    exc: Seq<Seq<char>>,
    offset: int,
    limit: int,
)
    requires
        images_match_views(ms, search_view(v, inc, exc), v.tags),
        0 <= offset,
        0 <= limit,
    ensures
        ({
            let sv = search_view(v, inc, exc);
            let lo: int = if offset <= sv.len() {
                offset
            } else {
                sv.len() as int
            };
            let hi: int = if offset + limit <= sv.len() {
                offset + limit
            } else {
                sv.len() as int
            };
            images_match_views(ms.subrange(lo, hi), sv.subrange(lo, hi), v.tags)
        }),
{
    let sv = search_view(v, inc, exc);
    let lo: int = if offset <= sv.len() {
        offset
    } else {
        sv.len() as int
    };
    let hi: int = if offset + limit <= sv.len() {
        offset + limit
    } else {
        sv.len() as int
    };
    assert forall|k: int| 0 <= k < ms.subrange(lo, hi).len() implies crate::store::image_matches_view(
        #[trigger] ms.subrange(lo, hi)[k],
        sv.subrange(lo, hi)[k],
    ) && crate::store::image_tags_match(ms.subrange(lo, hi)[k], sv.subrange(lo, hi)[k], v.tags) by {
        assert(ms.subrange(lo, hi)[k] == ms[lo + k]);
        assert(sv.subrange(lo, hi)[k] == sv[lo + k]);
    }
}

} // verus!
