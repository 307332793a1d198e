//! The tag-indexed store.
//!
//! [`TifariDb`] keeps the image and tag relations in memory as two row
//! vectors ordered by ascending id. Every operation is specified against
//! the store's mathematical view ([`StoreView`]) and preserves the store
//! invariant [`store_wf`]: symmetric edges, no orphan tags, unique ids,
//! paths and names, and valid tag names.

use vstd::prelude::*;

use crate::error::BackendError;
use crate::model::{
    empty_store, erase_image_result, erase_image_tags, erase_step_fn, exclusion_fn,
    excluded_names, give_existing_result, give_new_result, has_image_id, has_image_path,
    has_tag_id, has_tag_name, image_has_tag_name, image_index, image_path_index, included_names,
    inclusion_fn, is_exclusion, lemma_erase_image_wf, lemma_filter_take_succ,
    lemma_give_existing_wf, lemma_give_new_wf, lemma_image_id_index, lemma_image_path_index, lemma_remove_tag_wf, lemma_remove_value_absent,
    lemma_remove_value_is_remove, lemma_store_size_bounds, lemma_tag_id_index, lemma_tag_member,
    lemma_tag_name_index, matches_fn, matches_query, names_of, queue_view, remove_tag_result,
    search_view, store_wf, str_views, strip_fn, tag_index, tag_name_index, tag_without_image,
    untagged_fn, valid_tag_name, ImageView, StoreView, TagView,
};
use crate::models::{Image, Tag, TagWithUsage};

verus! {

/// One image row of the store.
struct ImageRow {
    id: i64,
    path: String,
    created_at_time: i64,
    tag_ids: Vec<i64>,
}

/// One tag row of the store.
struct TagRow {
    id: i64,
    name: String,
    image_ids: Vec<i64>,
}

/// The tag-indexed store: the image and tag relations with their
/// symmetric membership edges, and the next id each relation assigns.
pub struct TifariDb {
    images: Vec<ImageRow>,
    tags: Vec<TagRow>,
    next_image_id: i64,
    next_tag_id: i64,
}

spec fn image_row_view(r: ImageRow) -> ImageView {
    ImageView { id: r.id, path: r.path@, created_at_time: r.created_at_time, tag_ids: r.tag_ids@ }
}

spec fn tag_row_view(r: TagRow) -> TagView {
    TagView { id: r.id, name: r.name@, image_ids: r.image_ids@ }
}

impl View for TifariDb {
    type V = StoreView;

    closed spec fn view(&self) -> StoreView {
        StoreView {
            images: self.images@.map_values(|r: ImageRow| image_row_view(r)),
            tags: self.tags@.map_values(|r: TagRow| tag_row_view(r)),
            next_image_id: self.next_image_id,
            next_tag_id: self.next_tag_id,
        }
    }
}

/// The record carries an image row's id, path and creation time.
pub open spec fn image_matches_view(m: Image, iv: ImageView) -> bool {
    &&& m.spec_id() == iv.id
    &&& m.spec_path() == iv.path
    &&& m.spec_created_at_time() == iv.created_at_time
}

/// The record carries the image row's tags: one entry per tag id, in
/// order, each named as the tag relation names it.
pub open spec fn image_tags_match(m: Image, iv: ImageView, tags: Seq<TagView>) -> bool {
    &&& m.spec_tags().len() == iv.tag_ids.len()
    &&& forall|k: int|
        0 <= k < iv.tag_ids.len() ==> (#[trigger] m.spec_tags()[k]).spec_id() == iv.tag_ids[k]
            && m.spec_tags()[k].spec_name() == tags[tag_index(tags, iv.tag_ids[k])].name
}

/// The records carry the given image rows, elementwise.
pub open spec fn images_match_views(ms: Seq<Image>, ivs: Seq<ImageView>, tags: Seq<TagView>) -> bool {
    &&& ms.len() == ivs.len()
    &&& forall|k: int|
        0 <= k < ms.len() ==> image_matches_view(#[trigger] ms[k], ivs[k]) && image_tags_match(
            ms[k],
            ivs[k],
            tags,
        )
}

impl TifariDb {
    /// The store invariant; every operation requires and preserves it.
    pub open spec fn wf(self) -> bool {
        store_wf(self@)
    }

    /// Creates an empty store.
    pub fn new_in_memory() -> (result: Result<TifariDb, BackendError>)
        ensures
            match result {
                Ok(db) => db.wf() && db@ == empty_store(),
                Err(_) => false,
            },
    {
        let db = TifariDb { images: Vec::new(), tags: Vec::new(), next_image_id: 1, next_tag_id: 1 };
        proof {
            assert(db@ =~~= empty_store());
        }
        Ok(db)
    }

    /// Creates an empty store for the configured storage location. The
    /// relations live in memory; the location is the caller's concern.
    pub fn new(_cfg: &crate::config::TifariConfig) -> (result: Result<TifariDb, BackendError>)
        ensures
            match result {
                Ok(db) => db.wf() && db@ == empty_store(),
                Err(_) => false,
            },
    {
        TifariDb::new_in_memory()
    }

    /// Prepares the store's relations. The relations exist from
    /// construction on, so there is nothing left to set up.
    pub fn setup_tables(&self) -> (result: Result<(), BackendError>)
        ensures
            result == Ok::<(), BackendError>(()),
    {
        Ok(())
    }

    /// Inserts an image with the given path and no tags, assigning the next
    /// image id. Fails with `DuplicatePath` if an image with this path
    /// exists, and with `StorageFault` if the id space is exhausted; a
    /// failed call leaves the store unchanged.
    #[verifier::loop_isolation(false)]
    pub fn try_insert_image(&mut self, path: &str) -> (result: Result<i64, BackendError>)
        requires
            old(self).wf(),
        ensures
            final(self).wf(),
            match result {
                Ok(id) => {
                    &&& !has_image_path(old(self)@.images, path@)
                    &&& old(self)@.next_image_id < i64::MAX
                    &&& id == old(self)@.next_image_id
                    &&& exists|t: i64|
                        final(self)@ == (StoreView {
                            images: old(self)@.images.push(
                                ImageView {
                                    id: id,
                                    path: path@,
                                    created_at_time: t,
                                    tag_ids: Seq::empty(),
                                },
                            ),
                            tags: old(self)@.tags,
                            next_image_id: (id + 1) as i64,
                            next_tag_id: old(self)@.next_tag_id,
                        })
                },
                Err(BackendError::DuplicatePath) => {
                    &&& has_image_path(old(self)@.images, path@)
                    &&& *final(self) == *old(self)
                },
                Err(BackendError::StorageFault) => {
                    &&& !has_image_path(old(self)@.images, path@)
                    &&& old(self)@.next_image_id == i64::MAX
                    &&& *final(self) == *old(self)
                },
                Err(_) => false,
            },
    {
        let owned: String = path.to_owned();
        let n = self.images.len();
        let mut i: usize = 0;
        while i < n
            invariant
                i <= n,
                forall|k: int| 0 <= k < i ==> (#[trigger] self@.images[k]).path != path@,
            decreases n - i,
        {
            if self.images[i].path == owned {
                proof {
                    assert(self@.images[i as int].path == path@);
                }
                return Err(BackendError::DuplicatePath);
            }
            i += 1;
        }
        if self.next_image_id == i64::MAX {
            return Err(BackendError::StorageFault);
        }
        let id = self.next_image_id;
        let t = current_timestamp();
        let row = ImageRow { id: id, path: owned, created_at_time: t, tag_ids: Vec::new() };
        self.images.push(row);
        self.next_image_id = id + 1;
        proof {
            let new_iv = ImageView { id: id, path: path@, created_at_time: t, tag_ids: Seq::empty() };
            assert(self@ =~~= StoreView {
                images: old(self)@.images.push(new_iv),
                tags: old(self)@.tags,
                next_image_id: (id + 1) as i64,
                next_tag_id: old(self)@.next_tag_id,
            });
            lemma_insert_image_wf(old(self)@, new_iv, t);
            assert(exists|tt: i64|
                self@ == (StoreView {
                    images: old(self)@.images.push(
                        ImageView {
                            id: id,
                            path: path@,
                            created_at_time: tt,
                            tag_ids: Seq::empty(),
                        },
                    ),
                    tags: old(self)@.tags,
                    next_image_id: (id + 1) as i64,
                    next_tag_id: old(self)@.next_tag_id,
                })) by {
                assert(self@ == (StoreView {
                    images: old(self)@.images.push(
                        ImageView {
                            id: id,
                            path: path@,
                            created_at_time: t,
                            tag_ids: Seq::empty(),
                        },
                    ),
                    tags: old(self)@.tags,
                    next_image_id: (id + 1) as i64,
                    next_tag_id: old(self)@.next_tag_id,
                }));
            }
        }
        Ok(id)
    }

    /// Assigns the tag with the given name to the image with the given id,
    /// creating the tag on first use of the name (the tag id is reused for a
    /// known name). Fails with `InvalidTagName` on a bad name, `NotFound` on
    /// an unknown image id, `DuplicateAssignment` if the image already
    /// carries the tag, and `StorageFault` if the tag id space is exhausted;
    /// a failed call leaves the store unchanged.
    pub fn give_tag(&mut self, image_id: i64, tag: &str) -> (result: Result<i64, BackendError>)
        requires
            old(self).wf(),
        ensures
            final(self).wf(),
            match result {
                Ok(tag_id) => {
                    &&& valid_tag_name(tag@)
                    &&& has_image_id(old(self)@.images, image_id)
                    &&& if has_tag_name(old(self)@.tags, tag@) {
                        &&& tag_id == old(self)@.tags[tag_name_index(old(self)@.tags, tag@)].id
                        &&& !old(self)@.images[image_index(old(self)@.images, image_id)].tag_ids.contains(tag_id)
                        &&& final(self)@ == give_existing_result(
                            old(self)@,
                            image_index(old(self)@.images, image_id),
                            tag_name_index(old(self)@.tags, tag@),
                        )
                    } else {
                        &&& old(self)@.next_tag_id < i64::MAX
                        &&& tag_id == old(self)@.next_tag_id
                        &&& final(self)@ == give_new_result(
                            old(self)@,
                            image_index(old(self)@.images, image_id),
                            tag@,
                        )
                    }
                },
                Err(BackendError::InvalidTagName) => {
                    &&& !valid_tag_name(tag@)
                    &&& *final(self) == *old(self)
                },
                Err(BackendError::NotFound) => {
                    &&& valid_tag_name(tag@)
                    &&& !has_image_id(old(self)@.images, image_id)
                    &&& *final(self) == *old(self)
                },
                Err(BackendError::DuplicateAssignment) => {
                    &&& valid_tag_name(tag@)
                    &&& has_image_id(old(self)@.images, image_id)
                    &&& has_tag_name(old(self)@.tags, tag@)
                    &&& old(self)@.images[image_index(old(self)@.images, image_id)].tag_ids.contains(
                        old(self)@.tags[tag_name_index(old(self)@.tags, tag@)].id,
                    )
                    &&& *final(self) == *old(self)
                },
                Err(BackendError::StorageFault) => {
                    &&& valid_tag_name(tag@)
                    &&& has_image_id(old(self)@.images, image_id)
                    &&& !has_tag_name(old(self)@.tags, tag@)
                    &&& old(self)@.next_tag_id == i64::MAX
                    &&& *final(self) == *old(self)
                },
                Err(_) => false,
            },
    {
        let len = tag.unicode_len();
        if len == 0 {
            return Err(BackendError::InvalidTagName);
        }
        let c = tag.get_char(0);
        if c == '-' || c == ' ' || c == '\t' || c == '\r' || c == '\n' {
            return Err(BackendError::InvalidTagName);
        }
        let ii = match find_image_by_id(&self.images, image_id) {
            Some(i) => i,
            None => {
                proof {
                    if has_image_id(self@.images, image_id) {
                        let k = choose|k: int|
                            0 <= k < self@.images.len() && (#[trigger] self@.images[k]).id
                                == image_id;
                        assert(self@.images[k].id != image_id);
                    }
                }
                return Err(BackendError::NotFound);
            },
        };
        let owned: String = tag.to_owned();
        match find_tag_by_name(&self.tags, &owned) {
            Some(jt) => {
                let tid = self.tags[jt].id;
                proof {
                    lemma_tag_name_index(self@, jt as int);
                    lemma_image_id_index(self@, ii as int);
                }
                if vec_contains_i64(&self.images[ii].tag_ids, tid) {
                    return Err(BackendError::DuplicateAssignment);
                }
                self.images[ii].tag_ids.push(tid);
                self.tags[jt].image_ids.push(image_id);
                proof {
                    assert(self@ =~~= give_existing_result(old(self)@, ii as int, jt as int));
                    lemma_give_existing_wf(old(self)@, ii as int, jt as int);
                }
                Ok(tid)
            },
            None => {
                proof {
                    if has_tag_name(self@.tags, tag@) {
                        let k = choose|k: int|
                            0 <= k < self@.tags.len() && (#[trigger] self@.tags[k]).name == tag@;
                        assert(self@.tags[k].name != tag@);
                    }
                    lemma_image_id_index(self@, ii as int);
                }
                if self.next_tag_id == i64::MAX {
                    return Err(BackendError::StorageFault);
                }
                let tid = self.next_tag_id;
                self.images[ii].tag_ids.push(tid);
                let mut member_ids: Vec<i64> = Vec::new();
                member_ids.push(image_id);
                self.tags.push(TagRow { id: tid, name: owned, image_ids: member_ids });
                self.next_tag_id = tid + 1;
                proof {
                    assert(self@ =~~= give_new_result(old(self)@, ii as int, tag@));
                    lemma_give_new_wf(old(self)@, ii as int, tag@);
                }
                Ok(tid)
            },
        }
    }

    /// Removes the edge between the given image and tag, re-queueing the
    /// image if it was its last tag and garbage-collecting the tag if this
    /// was its last image. Fails with `NotFound` if the image does not exist
    /// or does not carry the tag; a failed call leaves the store unchanged.
    pub fn remove_tag(&mut self, image_id: i64, tag_id: i64) -> (result: Result<(), BackendError>)
        requires
            old(self).wf(),
        ensures
            final(self).wf(),
            match result {
                Ok(()) => {
                    &&& has_image_id(old(self)@.images, image_id)
                    &&& has_tag_id(old(self)@.tags, tag_id)
                    &&& old(self)@.images[image_index(old(self)@.images, image_id)].tag_ids.contains(
                        tag_id,
                    )
                    &&& final(self)@ == remove_tag_result(
                        old(self)@,
                        image_index(old(self)@.images, image_id),
                        tag_index(old(self)@.tags, tag_id),
                    )
                },
                Err(BackendError::NotFound) => {
                    &&& (!has_image_id(old(self)@.images, image_id) || !old(self)@.images[
                        image_index(old(self)@.images, image_id)
                    ].tag_ids.contains(tag_id))
                    &&& *final(self) == *old(self)
                },
                Err(_) => false,
            },
    {
        let ii = match find_image_by_id(&self.images, image_id) {
            Some(i) => i,
            None => {
                proof {
                    if has_image_id(self@.images, image_id) {
                        let k = choose|k: int|
                            0 <= k < self@.images.len() && (#[trigger] self@.images[k]).id
                                == image_id;
                        assert(self@.images[k].id != image_id);
                    }
                }
                return Err(BackendError::NotFound);
            },
        };
        proof {
            lemma_image_id_index(self@, ii as int);
        }
        if !vec_contains_i64(&self.images[ii].tag_ids, tag_id) {
            return Err(BackendError::NotFound);
        }
        proof {
            lemma_tag_member(self@, ii as int, tag_id);
        }
        let jt = match find_tag_by_id(&self.tags, tag_id) {
            Some(j) => j,
            None => {
                proof {
                    let k = choose|k: int|
                        0 <= k < self@.tags.len() && (#[trigger] self@.tags[k]).id == tag_id;
                    assert(self@.tags[k].id != tag_id);
                    assert(false);
                }
                return Err(BackendError::NotFound);
            },
        };
        proof {
            lemma_tag_id_index(self@, jt as int);
            // symmetry: the tag's list holds this image's id
            assert(self@.tags[jt as int].image_ids.contains(self@.images[ii as int].id));
        }
        let pos = find_pos_i64(&self.images[ii].tag_ids, tag_id);
        let ghost old_tag_list = self@.images[ii as int].tag_ids;
        self.images[ii].tag_ids.remove(pos);
        proof {
            lemma_remove_value_is_remove(old_tag_list, tag_id, pos as int);
        }
        let pos2 = find_pos_i64(&self.tags[jt].image_ids, image_id);
        let ghost old_member_list = self@.tags[jt as int].image_ids;
        self.tags[jt].image_ids.remove(pos2);
        proof {
            lemma_remove_value_is_remove(old_member_list, image_id, pos2 as int);
        }
        if self.tags[jt].image_ids.len() == 0 {
            self.tags.remove(jt);
            proof {
                assert(self@ =~~= remove_tag_result(old(self)@, ii as int, jt as int));
            }
        } else {
            proof {
                assert(self@ =~~= remove_tag_result(old(self)@, ii as int, jt as int));
            }
        }
        proof {
            lemma_remove_tag_wf(old(self)@, ii as int, jt as int);
        }
        Ok(())
    }

    /// Erases the image with the given path: its row leaves the store, its
    /// id leaves every tag's list, and tags left with no image are
    /// garbage-collected. Fails with `NotFound` if no image has that path;
    /// a failed call leaves the store unchanged.
    #[verifier::loop_isolation(false)]
    pub fn erase_image(&mut self, path: &str) -> (result: Result<(), BackendError>)
        requires
            old(self).wf(),
        ensures
            final(self).wf(),
            match result {
                Ok(()) => {
                    &&& has_image_path(old(self)@.images, path@)
                    &&& final(self)@ == erase_image_result(
                        old(self)@,
                        image_path_index(old(self)@.images, path@),
                    )
                },
                Err(BackendError::NotFound) => {
                    &&& !has_image_path(old(self)@.images, path@)
                    &&& *final(self) == *old(self)
                },
                Err(_) => false,
            },
    {
        let owned: String = path.to_owned();
        let ii = match find_image_by_path(&self.images, &owned) {
            Some(i) => i,
            None => {
                proof {
                    if has_image_path(self@.images, path@) {
                        let k = choose|k: int|
                            0 <= k < self@.images.len() && (#[trigger] self@.images[k]).path
                                == path@;
                        assert(self@.images[k].path != path@);
                    }
                }
                return Err(BackendError::NotFound);
            },
        };
        proof {
            lemma_image_path_index(self@, ii as int);
        }
        let row = self.images.remove(ii);
        let iid = row.id;
        proof {
            assert(self@.images =~= old(self)@.images.remove(ii as int));
            assert(self@.tags == old(self)@.tags);
            assert(iid == old(self)@.images[ii as int].id);
        }
        let n = self.tags.len();
        let mut new_tags: Vec<TagRow> = Vec::new();
        let mut j: usize = 0;
        while j < n
            invariant
                j <= n,
                n == self.tags@.len(),
                self@.tags == old(self)@.tags,
                new_tags@.map_values(|r: TagRow| tag_row_view(r)) == erase_image_tags(
                    old(self)@.tags.take(j as int),
                    iid,
                ),
            decreases n - j,
        {
            let tid = self.tags[j].id;
            let name = self.tags[j].name.clone();
            let mut ids = copy_vec_i64(&self.tags[j].image_ids);
            if vec_contains_i64(&ids, iid) {
                let pos = find_pos_i64(&ids, iid);
                let ghost before = ids@;
                ids.remove(pos);
                proof {
                    lemma_remove_value_is_remove(before, iid, pos as int);
                    assert(ids@ == old(self)@.tags[j as int].image_ids.remove_value(iid));
                }
            } else {
                proof {
                    lemma_remove_value_absent(ids@, iid);
                    assert(ids@ == old(self)@.tags[j as int].image_ids.remove_value(iid));
                }
            }
            let ghost prev = new_tags@.map_values(|r: TagRow| tag_row_view(r));
            let ghost t = old(self)@.tags[j as int];
            let ghost t2 = tag_without_image(t, iid);
            if ids.len() > 0 {
                new_tags.push(TagRow { id: tid, name: name, image_ids: ids });
                proof {
                    assert(tag_row_view(new_tags@.last()) == t2);
                    assert(new_tags@.map_values(|r: TagRow| tag_row_view(r)) =~= prev.push(t2));
                }
            }
            proof {
                assert(erase_step_fn(iid)(t) == (if t2.image_ids.len() == 0 {
                    None::<TagView>
                } else {
                    Some(t2)
                }));
                old(self)@.tags.lemma_filter_map_take_succ(erase_step_fn(iid), j as int);
                if t2.image_ids.len() == 0 {
                    assert(new_tags@.map_values(|r: TagRow| tag_row_view(r)) =~= erase_image_tags(
                        old(self)@.tags.take(j as int + 1),
                        iid,
                    ));
                } else {
                    assert(prev.push(t2) =~= prev + seq![t2]);
                    assert(new_tags@.map_values(|r: TagRow| tag_row_view(r)) =~= erase_image_tags(
                        old(self)@.tags.take(j as int + 1),
                        iid,
                    ));
                }
            }
            j += 1;
        }
        self.tags = new_tags;
        proof {
            assert(old(self)@.tags.take(n as int) =~= old(self)@.tags);
            assert(self@ =~~= erase_image_result(old(self)@, ii as int));
            lemma_erase_image_wf(old(self)@, ii as int);
        }
        Ok(())
    }

    /// Builds the full record of the image row at the given index, with one
    /// tag entry per membership edge.
    #[verifier::loop_isolation(false)]
    fn build_image(&self, i: usize) -> (img: Image)
        requires
            self.wf(),
            i < self@.images.len(),
        ensures
            image_matches_view(img, self@.images[i as int]),
            image_tags_match(img, self@.images[i as int], self@.tags),
    {
        let mut tags_out: Vec<Tag> = Vec::new();
        let m = self.images[i].tag_ids.len();
        let mut k: usize = 0;
        while k < m
            invariant
                k <= m,
                m == self@.images[i as int].tag_ids.len(),
                tags_out@.len() == k,
                forall|q: int|
                    0 <= q < k ==> (#[trigger] tags_out@[q]).spec_id() == self@.images[
                        i as int
                    ].tag_ids[q] && tags_out@[q].spec_name() == self@.tags[tag_index(
                        self@.tags,
                        self@.images[i as int].tag_ids[q],
                    )].name,
            decreases m - k,
        {
            let tid = self.images[i].tag_ids[k];
            proof {
                assert(self@.images[i as int].tag_ids[k as int] == tid);
                assert(self@.images[i as int].tag_ids.contains(tid));
                lemma_tag_member(self@, i as int, tid);
            }
            let jt = match find_tag_by_id(&self.tags, tid) {
                Some(j) => j,
                None => {
                    proof {
                        let q = choose|q: int|
                            0 <= q < self@.tags.len() && (#[trigger] self@.tags[q]).id == tid;
                        assert(self@.tags[q].id != tid);
                        assert(false);
                    }
                    return Image::new_no_tags(0, String::new(), 0);
                },
            };
            proof {
                lemma_tag_id_index(self@, jt as int);
            }
            tags_out.push(Tag::new(tid, self.tags[jt].name.clone()));
            k += 1;
        }
        Image::new(
            self.images[i].id,
            self.images[i].path.clone(),
            self.images[i].created_at_time,
            tags_out,
        )
    }

    /// Looks an image up by id and returns its full record, tags included.
    /// Fails with `NotFound` if no image has that id.
    pub fn get_image_from_db(&self, id: i64) -> (result: Result<Image, BackendError>)
        requires
            self.wf(),
        ensures
            match result {
                Ok(img) => {
                    &&& has_image_id(self@.images, id)
                    &&& image_matches_view(img, self@.images[image_index(self@.images, id)])
                    &&& image_tags_match(
                        img,
                        self@.images[image_index(self@.images, id)],
                        self@.tags,
                    )
                },
                Err(BackendError::NotFound) => !has_image_id(self@.images, id),
                Err(_) => false,
            },
    {
        match find_image_by_id(&self.images, id) {
            Some(i) => {
                proof {
                    lemma_image_id_index(self@, i as int);
                }
                Ok(self.build_image(i))
            },
            None => {
                proof {
                    if has_image_id(self@.images, id) {
                        let k = choose|k: int|
                            0 <= k < self@.images.len() && (#[trigger] self@.images[k]).id == id;
                        assert(self@.images[k].id != id);
                    }
                }
                Err(BackendError::NotFound)
            },
        }
    }

    /// Lists the images carrying no tag, most recently inserted first, as
    /// records without tag entries.
    #[verifier::loop_isolation(false)]
    pub fn get_tag_queue(&self) -> (result: Result<Vec<Image>, BackendError>)
        requires
            self.wf(),
        ensures
            match result {
                Ok(r) => {
                    &&& r@.len() == queue_view(self@).len()
                    &&& forall|k: int|
                        0 <= k < r@.len() ==> image_matches_view(
                            #[trigger] r@[k],
                            queue_view(self@)[k],
                        ) && r@[k].spec_tags() == Seq::<Tag>::empty()
                },
                Err(_) => false,
            },
    {
        let ghost rev = self@.images.reverse();
        let n = self.images.len();
        let mut out: Vec<Image> = Vec::new();
        let mut processed: usize = 0;
        while processed < n
            invariant
                processed <= n,
                n == self@.images.len(),
                out@.len() == rev.take(processed as int).filter(untagged_fn()).len(),
                forall|k: int|
                    0 <= k < out@.len() ==> image_matches_view(
                        #[trigger] out@[k],
                        rev.take(processed as int).filter(untagged_fn())[k],
                    ) && out@[k].spec_tags() == Seq::<Tag>::empty(),
            decreases n - processed,
        {
            let i = n - 1 - processed;
            proof {
                assert(rev[processed as int] == self@.images[i as int]);
                lemma_filter_take_succ(rev, untagged_fn(), processed as int);
            }
            if self.images[i].tag_ids.len() == 0 {
                out.push(
                    Image::new_no_tags(
                        self.images[i].id,
                        self.images[i].path.clone(),
                        self.images[i].created_at_time,
                    ),
                );
            }
            processed += 1;
        }
        proof {
            assert(rev.take(n as int) =~= rev);
        }
        Ok(out)
    }

    /// The number of images in the tag queue.
    pub fn get_num_elements_in_tag_queue(&self) -> (result: Result<i64, BackendError>)
        requires
            self.wf(),
        ensures
            result == Ok::<i64, BackendError>(queue_view(self@).len() as i64),
    {
        let q = match self.get_tag_queue() {
            Ok(q) => q,
            Err(e) => {
                return Err(e);
            },
        };
        proof {
            lemma_store_size_bounds(self@);
            self@.images.reverse().lemma_filter_len(untagged_fn());
        }
        Ok(q.len() as i64)
    }

    /// Lists every tag with the number of images carrying it, by ascending
    /// tag id.
    #[verifier::loop_isolation(false)]
    pub fn get_all_tags(&self) -> (result: Result<Vec<TagWithUsage>, BackendError>)
        requires
            self.wf(),
        ensures
            match result {
                Ok(r) => {
                    &&& r@.len() == self@.tags.len()
                    &&& forall|j: int|
                        0 <= j < r@.len() ==> (#[trigger] r@[j]).spec_id() == self@.tags[j].id
                            && r@[j].spec_name() == self@.tags[j].name && r@[j].spec_times_used()
                            == self@.tags[j].image_ids.len() as i64
                },
                Err(_) => false,
            },
    {
        proof {
            lemma_store_size_bounds(self@);
        }
        let n = self.tags.len();
        let mut out: Vec<TagWithUsage> = Vec::new();
        let mut j: usize = 0;
        while j < n
            invariant
                j <= n,
                n == self@.tags.len(),
                out@.len() == j,
                forall|q: int|
                    0 <= q < j ==> (#[trigger] out@[q]).spec_id() == self@.tags[q].id
                        && out@[q].spec_name() == self@.tags[q].name && out@[q].spec_times_used()
                        == self@.tags[q].image_ids.len() as i64,
            decreases n - j,
        {
            let usage = self.tags[j].image_ids.len();
            out.push(TagWithUsage::new(self.tags[j].id, self.tags[j].name.clone(), usage as i64));
            j += 1;
        }
        Ok(out)
    }

    /// Whether the image at the given index carries a tag with the given
    /// name.
    #[verifier::loop_isolation(false)]
    fn image_carries_name(&self, i: usize, name: &String) -> (b: bool)
        requires
            self.wf(),
            i < self@.images.len(),
        ensures
            b == image_has_tag_name(self@.tags, self@.images[i as int], name@),
    {
        let ghost iv = self@.images[i as int];
        let m = self.images[i].tag_ids.len();
        let mut k: usize = 0;
        while k < m
            invariant
                k <= m,
                m == iv.tag_ids.len(),
                forall|j: int|
                    0 <= j < self@.tags.len() && (#[trigger] self@.tags[j]).name == name@
                        ==> !iv.tag_ids.take(k as int).contains(self@.tags[j].id),
            decreases m - k,
        {
            let tid = self.images[i].tag_ids[k];
            proof {
                assert(iv.tag_ids[k as int] == tid);
                assert(iv.tag_ids.contains(tid));
                lemma_tag_member(self@, i as int, tid);
            }
            let jt = match find_tag_by_id(&self.tags, tid) {
                Some(j) => j,
                None => {
                    proof {
                        let q = choose|q: int|
                            0 <= q < self@.tags.len() && (#[trigger] self@.tags[q]).id == tid;
                        assert(self@.tags[q].id != tid);
                        assert(false);
                    }
                    return false;
                },
            };
            if self.tags[jt].name == *name {
                proof {
                    assert(self@.tags[jt as int].name == name@);
                    assert(self@.tags[jt as int].id == tid);
                    assert(iv.tag_ids.contains(self@.tags[jt as int].id));
                    assert(image_has_tag_name(self@.tags, iv, name@));
                }
                return true;
            }
            proof {
                lemma_tag_id_index(self@, jt as int);
                assert forall|j: int|
                    0 <= j < self@.tags.len() && (#[trigger] self@.tags[j]).name
                        == name@ implies !iv.tag_ids.take(k as int + 1).contains(
                    self@.tags[j].id,
                ) by {
                    if iv.tag_ids.take(k as int + 1).contains(self@.tags[j].id) {
                        let q = choose|q: int|
                            #![trigger iv.tag_ids.take(k as int + 1)[q]]
                            0 <= q < k as int + 1 && iv.tag_ids.take(k as int + 1)[q]
                                == self@.tags[j].id;
                        if q < k as int {
                            assert(iv.tag_ids.take(k as int)[q] == self@.tags[j].id);
                            assert(iv.tag_ids.take(k as int).contains(self@.tags[j].id));
                        } else {
                            assert(self@.tags[j].id == tid);
                            lemma_tag_id_index(self@, j);
                            assert(j == jt as int);
                        }
                    }
                }
            }
            k += 1;
        }
        proof {
            assert(iv.tag_ids.take(m as int) =~= iv.tag_ids);
            if image_has_tag_name(self@.tags, iv, name@) {
                let j = choose|j: int|
                    0 <= j < self@.tags.len() && (#[trigger] self@.tags[j]).name == name@
                        && iv.tag_ids.contains(self@.tags[j].id);
            }
        }
        false
    }

    /// Whether the image at the given index satisfies the query.
    #[verifier::loop_isolation(false)]
    fn row_matches(&self, i: usize, inc_tags: &Vec<String>, exc_tags: &Vec<String>) -> (b: bool)
        requires
            self.wf(),
            i < self@.images.len(),
        ensures
            b == matches_query(
                self@.tags,
                self@.images[i as int],
                names_of(inc_tags@),
                names_of(exc_tags@),
            ),
    {
        let ghost iv = self@.images[i as int];
        let ghost inc = names_of(inc_tags@);
        let ghost exc = names_of(exc_tags@);
        let ninc = inc_tags.len();
        if ninc == 0 {
            return false;
        }
        let mut k: usize = 0;
        while k < ninc
            invariant
                k <= ninc,
                ninc == inc.len(),
                forall|q: int| 0 <= q < k ==> image_has_tag_name(self@.tags, iv, #[trigger] inc[q]),
            decreases ninc - k,
        {
            let carries = self.image_carries_name(i, &inc_tags[k]);
            proof {
                assert(inc[k as int] == inc_tags@[k as int]@);
            }
            if !carries {
                return false;
            }
            k += 1;
        }
        let nexc = exc_tags.len();
        let mut k2: usize = 0;
        while k2 < nexc
            invariant
                k2 <= nexc,
                nexc == exc.len(),
                forall|q: int| 0 <= q < k2 ==> !image_has_tag_name(self@.tags, iv, #[trigger] exc[q]),
                forall|q: int| 0 <= q < inc.len() ==> image_has_tag_name(self@.tags, iv, #[trigger] inc[q]),
            decreases nexc - k2,
        {
            let carries = self.image_carries_name(i, &exc_tags[k2]);
            proof {
                assert(exc[k2 as int] == exc_tags@[k2 as int]@);
            }
            if carries {
                return false;
            }
            k2 += 1;
        }
        true
    }

    /// All images satisfying the query, most recently inserted first, each
    /// with its full tag list.
    #[verifier::loop_isolation(false)]
    pub fn search_full(&self, inc_tags: &Vec<String>, exc_tags: &Vec<String>) -> (result: Result<
        Vec<Image>,
        BackendError,
    >)
        requires
            self.wf(),
        ensures
            match result {
                Ok(r) => images_match_views(
                    r@,
                    search_view(self@, names_of(inc_tags@), names_of(exc_tags@)),
                    self@.tags,
                ),
                Err(_) => false,
            },
    {
        let ghost rev = self@.images.reverse();
        let ghost pred = matches_fn(self@.tags, names_of(inc_tags@), names_of(exc_tags@));
        let n = self.images.len();
        let mut out: Vec<Image> = Vec::new();
        let mut processed: usize = 0;
        while processed < n
            invariant
                processed <= n,
                n == self@.images.len(),
                out@.len() == rev.take(processed as int).filter(pred).len(),
                forall|k: int|
                    0 <= k < out@.len() ==> image_matches_view(
                        #[trigger] out@[k],
                        rev.take(processed as int).filter(pred)[k],
                    ) && image_tags_match(
                        out@[k],
                        rev.take(processed as int).filter(pred)[k],
                        self@.tags,
                    ),
            decreases n - processed,
        {
            let i = n - 1 - processed;
            proof {
                assert(rev[processed as int] == self@.images[i as int]);
                lemma_filter_take_succ(rev, pred, processed as int);
            }
            if self.row_matches(i, inc_tags, exc_tags) {
                let img = self.build_image(i);
                out.push(img);
            }
            processed += 1;
        }
        proof {
            assert(rev.take(n as int) =~= rev);
        }
        Ok(out)
    }

    /// Searches with the raw query syntax: a term starting with '-'
    /// excludes the named tag, any other term must be carried. Returns all
    /// matches, most recently inserted first.
    #[verifier::loop_isolation(false)]
    pub fn search(&self, tags: &Vec<&str>) -> (result: Result<Vec<Image>, BackendError>)
        requires
            self.wf(),
        ensures
            match result {
                Ok(r) => images_match_views(
                    r@,
                    search_view(
                        self@,
                        included_names(str_views(tags@)),
                        excluded_names(str_views(tags@)),
                    ),
                    self@.tags,
                ),
                Err(_) => false,
            },
    {
        let ghost q = str_views(tags@);
        let n = tags.len();
        let mut inc: Vec<String> = Vec::new();
        let mut exc: Vec<String> = Vec::new();
        let mut i: usize = 0;
        while i < n
            invariant
                i <= n,
                n == q.len(),
                names_of(inc@) == included_names(q.take(i as int)),
                names_of(exc@) == excluded_names(q.take(i as int)),
            decreases n - i,
        {
            let s = tags[i];
            proof {
                assert(q[i as int] == s@);
                lemma_filter_take_succ(q, inclusion_fn(), i as int);
                lemma_filter_take_succ(q, exclusion_fn(), i as int);
            }
            let len = s.unicode_len();
            if len > 0 && s.get_char(0) == '-' {
                let rest = s.substring_char(1, len);
                exc.push(rest.to_owned());
                proof {
                    assert(is_exclusion(s@));
                    assert(exclusion_fn()(q[i as int]));
                    assert(!inclusion_fn()(q[i as int]));
                    assert(q.take(i as int + 1).filter(exclusion_fn()) == q.take(
                        i as int,
                    ).filter(exclusion_fn()).push(q[i as int]));
                    assert(q.take(i as int + 1).filter(inclusion_fn()) == q.take(
                        i as int,
                    ).filter(inclusion_fn()));
                    assert(rest@ =~= s@.skip(1));
                    assert(strip_fn()(q[i as int]) == s@.skip(1));
                    let ghost pre = exc@.drop_last();
                    let ghost fpre = q.take(i as int).filter(exclusion_fn());
                    assert(exc@ == pre.push(exc@.last()));
                    assert(exc@.last()@ == s@.skip(1));
                    assert(names_of(pre) == excluded_names(q.take(i as int)));
                    assert(names_of(exc@).len() == fpre.len() + 1);
                    assert forall|m: int| 0 <= m < names_of(exc@).len() implies names_of(exc@)[m]
                        == excluded_names(q.take(i as int + 1))[m] by {
                        if m < fpre.len() {
                            assert(names_of(exc@)[m] == exc@[m]@);
                            assert(exc@[m] == pre[m]);
                            assert(names_of(pre)[m] == pre[m]@);
                            assert(excluded_names(q.take(i as int + 1))[m] == strip_fn()(
                                fpre.push(q[i as int])[m],
                            ));
                            assert(fpre.push(q[i as int])[m] == fpre[m]);
                            assert(excluded_names(q.take(i as int))[m] == strip_fn()(fpre[m]));
                        } else {
                            assert(names_of(exc@)[m] == exc@.last()@);
                            assert(excluded_names(q.take(i as int + 1))[m] == strip_fn()(
                                fpre.push(q[i as int])[m],
                            ));
                            assert(fpre.push(q[i as int])[m] == q[i as int]);
                        }
                    }
                    assert(names_of(exc@) =~~= excluded_names(q.take(i as int + 1)));
                    assert(names_of(inc@) =~~= included_names(q.take(i as int + 1)));
                }
            } else {
                inc.push(s.to_owned());
                proof {
                    assert(!is_exclusion(s@));
                    assert(!exclusion_fn()(q[i as int]));
                    assert(inclusion_fn()(q[i as int]));
                    assert(q.take(i as int + 1).filter(inclusion_fn()) == q.take(
                        i as int,
                    ).filter(inclusion_fn()).push(q[i as int]));
                    assert(q.take(i as int + 1).filter(exclusion_fn()) == q.take(
                        i as int,
                    ).filter(exclusion_fn()));
                    assert(names_of(inc@) =~~= included_names(q.take(i as int + 1)));
                    assert(names_of(exc@) =~~= excluded_names(q.take(i as int + 1)));
                }
            }
            i += 1;
        }
        proof {
            assert(q.take(n as int) =~= q);
        }
        self.search_full(&inc, &exc)
    }

    /// Searches and returns one page of the results: the matches from
    /// `offset` on, at most `limit` of them, most recently inserted first.
    /// The page equals the same slice of the full result list.
    #[verifier::loop_isolation(false)]
    pub fn search_paged(
        &self,
        inc_tags: &Vec<String>,
        exc_tags: &Vec<String>,
        offset: usize,
        limit: usize,
    ) -> (result: Result<Vec<Image>, BackendError>)
        requires
            self.wf(),
        ensures
            match result {
                Ok(r) => {
                    let sv = search_view(self@, names_of(inc_tags@), names_of(exc_tags@));
                    let lo: int = if offset as int <= sv.len() {
                        offset as int
                    } else {
                        sv.len() as int
                    };
                    let hi: int = if offset as int + limit as int <= sv.len() {
                        offset as int + limit as int
                    } else {
                        sv.len() as int
                    };
                    images_match_views(r@, sv.subrange(lo, hi), self@.tags)
                },
                Err(_) => false,
            },
    {
        let ghost sv = search_view(self@, names_of(inc_tags@), names_of(exc_tags@));
        let mut all = match self.search_full(inc_tags, exc_tags) {
            Ok(r) => r,
            Err(e) => {
                return Err(e);
            },
        };
        let ghost full = all@;
        let n = all.len();
        let lo = if offset < n {
            offset
        } else {
            n
        };
        let avail = n - lo;
        let take_n = if limit < avail {
            limit
        } else {
            avail
        };
        let hi = lo + take_n;
        all.truncate(hi);
        proof {
            assert(all@ =~= full.take(hi as int));
        }
        let mut dropped: usize = 0;
        while dropped < lo
            invariant
                dropped <= lo,
                hi <= n,
                lo <= hi,
                all@ =~= full.subrange(dropped as int, hi as int),
            decreases lo - dropped,
        {
            all.remove(0);
            proof {
                assert(all@ =~= full.subrange(dropped as int + 1, hi as int));
            }
            dropped += 1;
        }
        proof {
            assert(all@ =~= full.subrange(lo as int, hi as int));
            let slo: int = if offset as int <= sv.len() {
                offset as int
            } else {
                sv.len() as int
            };
            let shi: int = if offset as int + limit as int <= sv.len() {
                offset as int + limit as int
            } else {
                sv.len() as int
            };
            assert(slo == lo as int && shi == hi as int);
            assert forall|k: int| 0 <= k < all@.len() implies image_matches_view(
                #[trigger] all@[k],
                sv.subrange(slo, shi)[k],
            ) && image_tags_match(all@[k], sv.subrange(slo, shi)[k], self@.tags) by {
                assert(all@[k] == full[lo as int + k]);
                assert(sv.subrange(slo, shi)[k] == sv[lo as int + k]);
            }
        }
        Ok(all)
    }

    /// Whether the store can still assign ids for `n` more images.
    pub fn can_assign_ids(&self, n: usize) -> (b: bool)
        requires
            self.wf(),
        ensures
            b == (self@.next_image_id + n <= i64::MAX),
    {
        let headroom = i64::MAX - self.next_image_id;
        (n as u64) <= (headroom as u64)
    }

    /// Whether the store knows the given path.
    pub fn has_path(&self, p: &String) -> (b: bool)
        ensures
            b == has_image_path(self@.images, p@),
    {
        match find_image_by_path(&self.images, p) {
            Some(i) => {
                proof {
                    assert(self@.images[i as int].path == p@);
                    assert(has_image_path(self@.images, p@));
                }
                true
            },
            None => {
                proof {
                    if has_image_path(self@.images, p@) {
                        let k = choose|k: int|
                            0 <= k < self@.images.len() && (#[trigger] self@.images[k]).path == p@;
                        assert(self@.images[k].path != p@);
                    }
                }
                false
            },
        }
    }

    /// The paths of every image in the store, by ascending image id.
    #[verifier::loop_isolation(false)]
    pub fn get_all_image_paths(&self) -> (r: Vec<String>)
        requires
            self.wf(),
        ensures
            r@.len() == self@.images.len(),
            forall|k: int| 0 <= k < r@.len() ==> (#[trigger] r@[k])@ == self@.images[k].path,
    {
        let n = self.images.len();
        let mut out: Vec<String> = Vec::new();
        let mut i: usize = 0;
        while i < n
            invariant
                i <= n,
                n == self@.images.len(),
                out@.len() == i,
                forall|k: int| 0 <= k < i ==> (#[trigger] out@[k])@ == self@.images[k].path,
            decreases n - i,
        {
            out.push(self.images[i].path.clone());
            i += 1;
        }
        out
    }
}

/// Finds the index of the image row with the given id.
#[verifier::loop_isolation(false)]
fn find_image_by_id(images: &Vec<ImageRow>, image_id: i64) -> (r: Option<usize>)
    ensures
        match r {
            Some(i) => i < images@.len() && images@[i as int].id == image_id,
            None => forall|k: int| 0 <= k < images@.len() ==> (#[trigger] images@[k]).id != image_id,
        },
{
    let n = images.len();
    let mut i: usize = 0;
    while i < n
        invariant
            i <= n,
            forall|k: int| 0 <= k < i ==> (#[trigger] images@[k]).id != image_id,
        decreases n - i,
    {
        if images[i].id == image_id {
            return Some(i);
        }
        i += 1;
    }
    None
}

/// Finds the index of the tag row with the given id.
#[verifier::loop_isolation(false)]
fn find_tag_by_id(tags: &Vec<TagRow>, tag_id: i64) -> (r: Option<usize>)
    ensures
        match r {
            Some(j) => j < tags@.len() && tags@[j as int].id == tag_id,
            None => forall|k: int| 0 <= k < tags@.len() ==> (#[trigger] tags@[k]).id != tag_id,
        },
{
    let n = tags.len();
    let mut j: usize = 0;
    while j < n
        invariant
            j <= n,
            forall|k: int| 0 <= k < j ==> (#[trigger] tags@[k]).id != tag_id,
        decreases n - j,
    {
        if tags[j].id == tag_id {
            return Some(j);
        }
        j += 1;
    }
    None
}

/// Finds the index of the tag row with the given name.
#[verifier::loop_isolation(false)]
fn find_tag_by_name(tags: &Vec<TagRow>, name: &String) -> (r: Option<usize>)
    ensures
        match r {
            Some(j) => j < tags@.len() && tags@[j as int].name@ == name@,
            None => forall|k: int| 0 <= k < tags@.len() ==> (#[trigger] tags@[k]).name@ != name@,
        },
{
    let n = tags.len();
    let mut j: usize = 0;
    while j < n
        invariant
            j <= n,
            forall|k: int| 0 <= k < j ==> (#[trigger] tags@[k]).name@ != name@,
        decreases n - j,
    {
        if tags[j].name == *name {
            return Some(j);
        }
        j += 1;
    }
    None
}

/// Finds the index of the image row with the given path.
#[verifier::loop_isolation(false)]
fn find_image_by_path(images: &Vec<ImageRow>, path: &String) -> (r: Option<usize>)
    ensures
        match r {
            Some(i) => i < images@.len() && images@[i as int].path@ == path@,
            None => forall|k: int| 0 <= k < images@.len() ==> (#[trigger] images@[k]).path@ != path@,
        },
{
    let n = images.len();
    let mut i: usize = 0;
    while i < n
        invariant
            i <= n,
            forall|k: int| 0 <= k < i ==> (#[trigger] images@[k]).path@ != path@,
        decreases n - i,
    {
        if images[i].path == *path {
            return Some(i);
        }
        i += 1;
    }
    None
}

/// Copies a list of ids.
#[verifier::loop_isolation(false)]
fn copy_vec_i64(v: &Vec<i64>) -> (r: Vec<i64>)
    ensures
        r@ == v@,
{
    let n = v.len();
    let mut r: Vec<i64> = Vec::new();
    let mut i: usize = 0;
    while i < n
        invariant
            i <= n,
            r@ == v@.take(i as int),
        decreases n - i,
    {
        r.push(v[i]);
        proof {
            assert(r@ =~= v@.take(i as int + 1));
        }
        i += 1;
    }
    proof {
        assert(v@.take(n as int) =~= v@);
    }
    r
}

/// The first position of the given id in the list.
#[verifier::loop_isolation(false)]
fn find_pos_i64(v: &Vec<i64>, x: i64) -> (pos: usize)
    requires
        v@.contains(x),
    ensures
        pos < v@.len(),
        v@[pos as int] == x,
        forall|k: int| 0 <= k < pos ==> v@[k] != x,
{
    let n = v.len();
    let mut i: usize = 0;
    while i < n
        invariant
            i <= n,
            forall|k: int| 0 <= k < i ==> v@[k] != x,
        decreases n - i,
    {
        if v[i] == x {
            return i;
        }
        i += 1;
    }
    proof {
        let k = choose|k: int| 0 <= k < v@.len() && v@[k] == x;
        assert(false);
    }
    0
}

/// Whether the list holds the given id.
#[verifier::loop_isolation(false)]
fn vec_contains_i64(v: &Vec<i64>, x: i64) -> (b: bool)
    ensures
        b == v@.contains(x),
{
    let n = v.len();
    let mut i: usize = 0;
    while i < n
        invariant
            i <= n,
            forall|k: int| 0 <= k < i ==> v@[k] != x,
        decreases n - i,
    {
        if v[i] == x {
            proof {
                assert(v@.contains(x));
            }
            return true;
        }
        i += 1;
    }
    proof {
        if v@.contains(x) {
            let k = choose|k: int| 0 <= k < v@.len() && v@[k] == x;
            assert(false);
        }
    }
    false
}

/// Appending a fresh untagged image preserves the store invariant.
proof fn lemma_insert_image_wf(v: StoreView, new_iv: ImageView, t: i64)
    requires
        store_wf(v),
        v.next_image_id < i64::MAX,
        new_iv == (ImageView {
            id: v.next_image_id,
            path: new_iv.path,
            created_at_time: t,
            tag_ids: Seq::empty(),
        }),
        !has_image_path(v.images, new_iv.path),
    ensures
        store_wf(
            StoreView {
                images: v.images.push(new_iv),
                tags: v.tags,
                next_image_id: (v.next_image_id + 1) as i64,
                next_tag_id: v.next_tag_id,
            },
        ),
{
    let w = StoreView {
        images: v.images.push(new_iv),
        tags: v.tags,
        next_image_id: (v.next_image_id + 1) as i64,
        next_tag_id: v.next_tag_id,
    };
    let m = v.images.len() as int;
    assert forall|i: int| 0 <= i < w.images.len() implies 1 <= (#[trigger] w.images[i]).id
        < w.next_image_id by {
        if i < m {
            assert(w.images[i] == v.images[i]);
        } else {
            assert(w.images[i] == new_iv);
        }
    }
    assert forall|i: int| 0 <= i < w.images.len() implies (#[trigger] w.images[i]).tag_ids.no_duplicates() by {
        if i < m {
            assert(w.images[i] == v.images[i]);
        } else {
            assert(w.images[i] == new_iv);
        }
    }
    assert forall|i: int, j: int| 0 <= i < j < w.images.len() implies (#[trigger] w.images[i]).id
        < (#[trigger] w.images[j]).id by {
        if j < m {
            assert(w.images[i] == v.images[i] && w.images[j] == v.images[j]);
        } else {
            assert(w.images[j] == new_iv);
            assert(w.images[i] == v.images[i]);
        }
    }
    assert forall|i: int, j: int| 0 <= i < j < w.images.len() implies (#[trigger] w.images[i]).path
        != (#[trigger] w.images[j]).path by {
        if j < m {
            assert(w.images[i] == v.images[i] && w.images[j] == v.images[j]);
        } else {
            assert(w.images[i] == v.images[i]);
            assert(!(v.images[i].path == new_iv.path)) by {
                if v.images[i].path == new_iv.path {
                    assert(has_image_path(v.images, new_iv.path));
                }
            }
        }
    }
    assert(new_iv.tag_ids.no_duplicates());
    assert forall|i: int, k: int|
        0 <= i < w.images.len() && 0 <= k < (#[trigger] w.images[i]).tag_ids.len() implies has_tag_id(
        w.tags,
        #[trigger] w.images[i].tag_ids[k],
    ) by {
        if i < m {
            assert(w.images[i] == v.images[i]);
        } else {
            assert(w.images[i] == new_iv);
        }
    }
    assert forall|j: int, k: int|
        0 <= j < w.tags.len() && 0 <= k < (#[trigger] w.tags[j]).image_ids.len() implies has_image_id(
        w.images,
        #[trigger] w.tags[j].image_ids[k],
    ) by {
        assert(has_image_id(v.images, v.tags[j].image_ids[k]));
        let wi = choose|i: int| 0 <= i < v.images.len() && (#[trigger] v.images[i]).id == v.tags[j].image_ids[k];
        assert(w.images[wi] == v.images[wi]);
    }
    assert forall|i: int, j: int| 0 <= i < w.images.len() && 0 <= j < w.tags.len() implies (
    (#[trigger] w.images[i]).tag_ids.contains(w.tags[j].id) <==> (#[trigger] w.tags[j]).image_ids.contains(
        w.images[i].id,
    )) by {
        if i < m {
            assert(w.images[i] == v.images[i]);
        } else {
            assert(w.images[i] == new_iv);
            assert(!new_iv.tag_ids.contains(w.tags[j].id));
            if w.tags[j].image_ids.contains(new_iv.id) {
                let k = choose|k: int|
                    0 <= k < v.tags[j].image_ids.len() && v.tags[j].image_ids[k] == new_iv.id;
                assert(has_image_id(v.images, v.tags[j].image_ids[k]));
                let wi = choose|wi: int|
                    0 <= wi < v.images.len() && (#[trigger] v.images[wi]).id == v.tags[j].image_ids[k];
                assert(v.images[wi].id < v.next_image_id);
                assert(false);
            }
        }
    }
}

/// Relies on `chrono::Utc::now` and `DateTime::timestamp` for an image's
/// creation time: seconds since the Unix epoch. The value depends on the
/// clock, so nothing is promised of it.
#[verifier::external_body]
fn current_timestamp() -> i64 {
    chrono::Utc::now().timestamp()
}

} // verus!
