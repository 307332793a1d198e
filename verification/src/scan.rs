//! The reconciliation pass and its progress state.
//!
//! A pass diffs the store's known paths against a directory listing,
//! erases what is gone from disk and inserts what is new, best-effort,
//! while reporting progress through [`ScanData`]. A second pass over an
//! unchanged listing leaves the store untouched.

use vstd::prelude::*;

use crate::error::BackendError;
use crate::model::{
    erase_image_result, has_image_path, image_path_index, lemma_contains_push,
    lemma_erase_presence, lemma_filter_take_succ, names_of, not_on_disk_fn, path_of_fn,
    paths_to_add, paths_to_remove, reconciled, unknown_path_fn, ImageView, StoreView,
};
use crate::store::TifariDb;

verus! {

/// Progress of the reconciliation worker: whether a pass is running, how
/// many items the running pass will touch, and how many it has touched.
pub struct ScanData {
    is_scanning: bool,
    scan_total: usize,
    scan_current: usize,
}

impl ScanData {
    /// Whether a pass is running.
    pub closed spec fn spec_is_scanning(self) -> bool {
        self.is_scanning
    }

    /// How many items the running pass will touch.
    pub closed spec fn spec_scan_total(self) -> usize {
        self.scan_total
    }

    /// How many items the running pass has touched.
    pub closed spec fn spec_scan_current(self) -> usize {
        self.scan_current
    }

    /// The idle state: no pass running, counters at zero.
    pub fn default() -> (s: ScanData)
        ensures
            !s.spec_is_scanning(),
            s.spec_scan_total() == 0,
            s.spec_scan_current() == 0,
    {
        ScanData { is_scanning: false, scan_total: 0, scan_current: 0 }
    }

    pub fn is_scanning(&self) -> (r: bool)
        ensures
            r == self.spec_is_scanning(),
    {
        self.is_scanning
    }

    pub fn get_scan_total(&self) -> (r: usize)
        ensures
            r == self.spec_scan_total(),
    {
        self.scan_total
    }

    pub fn get_scan_current(&self) -> (r: usize)
        ensures
            r == self.spec_scan_current(),
    {
        self.scan_current
    }

    pub fn set_is_scanning(&mut self, state: bool)
        ensures
            final(self).spec_is_scanning() == state,
            final(self).spec_scan_total() == old(self).spec_scan_total(),
            final(self).spec_scan_current() == old(self).spec_scan_current(),
    {
        self.is_scanning = state;
    }

    pub fn set_scan_total(&mut self, total: usize)
        ensures
            final(self).spec_is_scanning() == old(self).spec_is_scanning(),
            final(self).spec_scan_total() == total,
            final(self).spec_scan_current() == old(self).spec_scan_current(),
    {
        self.scan_total = total;
    }

    pub fn set_scan_current(&mut self, current: usize)
        ensures
            final(self).spec_is_scanning() == old(self).spec_is_scanning(),
            final(self).spec_scan_total() == old(self).spec_scan_total(),
            final(self).spec_scan_current() == current,
    {
        self.scan_current = current;
    }
}

/// Whether the list of names holds the given one.
#[verifier::loop_isolation(false)]
fn vec_contains_string(v: &Vec<String>, x: &String) -> (b: bool)
    ensures
        b == names_of(v@).contains(x@),
{
    let n = v.len();
    let mut i: usize = 0;
    while i < n
        invariant
            i <= n,
            forall|k: int| 0 <= k < i ==> (#[trigger] v@[k])@ != x@,
        decreases n - i,
    {
        if v[i] == *x {
            proof {
                assert(names_of(v@)[i as int] == x@);
            }
            return true;
        }
        i += 1;
    }
    proof {
        if names_of(v@).contains(x@) {
            let k = choose|k: int| 0 <= k < names_of(v@).len() && names_of(v@)[k] == x@;
            assert(v@[k]@ == x@);
        }
    }
    false
}

impl TifariDb {
    /// Runs one reconciliation pass against the given directory listing:
    /// erases every known path that is not listed, inserts every listed path
    /// that is not known, and reports progress through `scan`. Per-item
    /// failures are skipped, never aborting the pass. Afterwards the store
    /// knows exactly the listed paths, every image that was already on disk
    /// keeps its row (id, time and tags), and a pass over an already
    /// reconciled store changes nothing.
    #[verifier::loop_isolation(false)]
    pub fn reload_root_pass(&mut self, on_disk: &Vec<String>, scan: &mut ScanData)
        requires
            old(self).wf(),
            names_of(on_disk@).no_duplicates(),
            old(self)@.images.len() + on_disk@.len() <= usize::MAX,
            old(self)@.next_image_id + on_disk@.len() <= i64::MAX,
        ensures
            final(self).wf(),
            reconciled(final(self)@, names_of(on_disk@)),
            forall|i: int|
                0 <= i < old(self)@.images.len() && names_of(on_disk@).contains(
                    (#[trigger] old(self)@.images[i]).path,
                ) ==> final(self)@.images.contains(old(self)@.images[i]),
            forall|a: int|
                0 <= a < final(self)@.images.len() ==> (old(self)@.images.contains(
                    #[trigger] final(self)@.images[a],
                ) || (final(self)@.images[a].tag_ids.len() == 0 && final(self)@.images[a].id
                    >= old(self)@.next_image_id)),
            reconciled(old(self)@, names_of(on_disk@)) ==> *final(self) == *old(self),
            final(scan).spec_is_scanning() == old(scan).spec_is_scanning(),
            final(scan).spec_scan_total() == paths_to_remove(old(self)@, names_of(on_disk@)).len()
                + paths_to_add(old(self)@, names_of(on_disk@)).len(),
            final(scan).spec_scan_current() == final(scan).spec_scan_total(),
    {
        let ghost v0 = self@;
        let ghost disk = names_of(on_disk@);
        let known = self.get_all_image_paths();
        // which known paths are gone from disk
        let nk = known.len();
        let mut to_remove: Vec<String> = Vec::new();
        let mut i: usize = 0;
        while i < nk
            invariant
                i <= nk,
                nk == v0.images.len(),
                known@.len() == nk,
                forall|k: int| 0 <= k < nk ==> (#[trigger] known@[k])@ == v0.images[k].path,
                names_of(to_remove@) == v0.images.take(i as int).filter(not_on_disk_fn(disk))
                    .map_values(path_of_fn()),
            decreases nk - i,
        {
            proof {
                lemma_filter_take_succ(v0.images, not_on_disk_fn(disk), i as int);
            }
            let ghost pre_seq = to_remove@;
            let ghost fpre = v0.images.take(i as int).filter(not_on_disk_fn(disk));
            if !vec_contains_string(on_disk, &known[i]) {
                to_remove.push(known[i].clone());
                proof {
                    assert(not_on_disk_fn(disk)(v0.images[i as int]));
                    let target = fpre.push(v0.images[i as int]).map_values(path_of_fn());
                    assert(to_remove@ == pre_seq.push(to_remove@.last()));
                    assert(to_remove@.last()@ == v0.images[i as int].path);
                    assert(names_of(pre_seq) == fpre.map_values(path_of_fn()));
                    assert(names_of(to_remove@).len() == fpre.len() + 1);
                    assert forall|m: int| 0 <= m < names_of(to_remove@).len() implies names_of(
                        to_remove@,
                    )[m] == target[m] by {
                        if m < fpre.len() {
                            assert(names_of(to_remove@)[m] == to_remove@[m]@);
                            assert(to_remove@[m] == pre_seq[m]);
                            assert(names_of(pre_seq)[m] == pre_seq[m]@);
                            assert(fpre.push(v0.images[i as int])[m] == fpre[m]);
                            assert(fpre.map_values(path_of_fn())[m] == path_of_fn()(fpre[m]));
                            assert(target[m] == path_of_fn()(fpre[m]));
                        } else {
                            assert(names_of(to_remove@)[m] == to_remove@.last()@);
                            assert(fpre.push(v0.images[i as int])[m] == v0.images[i as int]);
                            assert(target[m] == path_of_fn()(v0.images[i as int]));
                        }
                    }
                    assert(names_of(to_remove@) =~~= target);
                }
            } else {
                proof {
                    assert(!not_on_disk_fn(disk)(v0.images[i as int]));
                }
            }
            i += 1;
        }
        proof {
            assert(v0.images.take(nk as int) =~= v0.images);
        }
        // which listed paths are unknown
        let nd = on_disk.len();
        let mut to_add: Vec<String> = Vec::new();
        let mut d: usize = 0;
        while d < nd
            invariant
                d <= nd,
                nd == on_disk@.len(),
                self@ == v0,
                names_of(to_add@) == disk.take(d as int).filter(unknown_path_fn(v0)),
            decreases nd - d,
        {
            proof {
                lemma_filter_take_succ(disk, unknown_path_fn(v0), d as int);
                assert(disk[d as int] == on_disk@[d as int]@);
            }
            let ghost pre_seq = to_add@;
            let ghost fpre = disk.take(d as int).filter(unknown_path_fn(v0));
            if !self.has_path(&on_disk[d]) {
                to_add.push(on_disk[d].clone());
                proof {
                    assert(unknown_path_fn(v0)(disk[d as int]));
                    let target = fpre.push(disk[d as int]);
                    assert(to_add@ == pre_seq.push(to_add@.last()));
                    assert(to_add@.last()@ == disk[d as int]);
                    assert(names_of(pre_seq) == fpre);
                    assert(names_of(to_add@).len() == fpre.len() + 1);
                    assert forall|m: int| 0 <= m < names_of(to_add@).len() implies names_of(
                        to_add@,
                    )[m] == target[m] by {
                        if m < fpre.len() {
                            assert(names_of(to_add@)[m] == to_add@[m]@);
                            assert(to_add@[m] == pre_seq[m]);
                            assert(names_of(pre_seq)[m] == pre_seq[m]@);
                            assert(target[m] == fpre[m]);
                        } else {
                            assert(names_of(to_add@)[m] == to_add@.last()@);
                            assert(target[m] == disk[d as int]);
                        }
                    }
                    assert(names_of(to_add@) =~~= target);
                }
            } else {
                proof {
                    assert(!unknown_path_fn(v0)(disk[d as int]));
                }
            }
            d += 1;
        }
        proof {
            assert(disk.take(nd as int) =~= disk);
            v0.images.lemma_filter_len(not_on_disk_fn(disk));
            disk.lemma_filter_len(unknown_path_fn(v0));
        }
        let nrem = to_remove.len();
        let nadd = to_add.len();
        let total = nrem + nadd;
        scan.set_scan_total(total);
        scan.set_scan_current(0);
        let ghost rem_names = names_of(to_remove@);
        let ghost add_names = names_of(to_add@);
        proof {
            // every name slated for removal is a known path that is not listed
            assert forall|k: int| 0 <= k < rem_names.len() implies has_image_path(
                v0.images,
                #[trigger] rem_names[k],
            ) && !disk.contains(rem_names[k]) by {
                let f = v0.images.filter(not_on_disk_fn(disk));
                v0.images.lemma_filter_pred(not_on_disk_fn(disk), k);
                assert(f.contains(f[k]));
                v0.images.lemma_filter_contains_rev(not_on_disk_fn(disk), f[k]);
                let i0 = choose|i0: int| 0 <= i0 < v0.images.len() && v0.images[i0] == f[k];
                assert(v0.images[i0].path == rem_names[k]);
                assert(has_image_path(v0.images, rem_names[k]));
            }
            // every name slated for insertion is listed and unknown
            assert forall|k: int| 0 <= k < add_names.len() implies disk.contains(
                #[trigger] add_names[k],
            ) && !has_image_path(v0.images, add_names[k]) by {
                let f = disk.filter(unknown_path_fn(v0));
                disk.lemma_filter_pred(unknown_path_fn(v0), k);
                assert(f.contains(f[k]));
                disk.lemma_filter_contains_rev(unknown_path_fn(v0), f[k]);
            }
        }
        // erase what is gone from disk
        let mut k: usize = 0;
        while k < nrem
            invariant
                k <= nrem,
                nrem == rem_names.len(),
                rem_names == names_of(to_remove@),
                self.wf(),
                self@.next_image_id == v0.next_image_id,
                forall|p: Seq<char>|
                    #[trigger] has_image_path(self@.images, p) <==> (has_image_path(v0.images, p)
                        && !rem_names.take(k as int).contains(p)),
                forall|a: int|
                    0 <= a < self@.images.len() ==> v0.images.contains(#[trigger] self@.images[a]),
                forall|i0: int|
                    0 <= i0 < v0.images.len() && !rem_names.take(k as int).contains(
                        (#[trigger] v0.images[i0]).path,
                    ) ==> self@.images.contains(v0.images[i0]),
                nrem == 0 ==> *self == *old(self),
                scan.spec_is_scanning() == old(scan).spec_is_scanning(),
                scan.spec_scan_total() == total,
                scan.spec_scan_current() == k,
            decreases nrem - k,
        {
            scan.set_scan_current(k + 1);
            let ghost before = self@;
            let ghost pk = rem_names[k as int];
            proof {
                assert(pk == to_remove@[k as int]@);
                assert(rem_names.take(k as int + 1) =~= rem_names.take(k as int).push(pk));
            }
            let res = self.erase_image(to_remove[k].as_str());
            proof {
                match res {
                    Ok(()) => {
                        let ii = image_path_index(before.images, pk);
                        assert(has_image_path(before.images, pk));
                        assert(0 <= ii < before.images.len() && before.images[ii].path == pk);
                        lemma_erase_presence(before, ii);
                        assert(self@ == erase_image_result(before, ii));
                    },
                    Err(e) => {
                        assert(!has_image_path(before.images, pk));
                    },
                }
                assert forall|p: Seq<char>| #[trigger] has_image_path(self@.images, p) <==> (
                has_image_path(v0.images, p) && !rem_names.take(k as int + 1).contains(p)) by {
                    lemma_contains_push(rem_names.take(k as int), pk, p);
                }
                assert forall|a: int| 0 <= a < self@.images.len() implies v0.images.contains(
                    #[trigger] self@.images[a],
                ) by {
                    assert(before.images.contains(self@.images[a]));
                    let b = choose|b: int|
                        0 <= b < before.images.len() && before.images[b] == self@.images[a];
                }
                assert forall|i0: int|
                    0 <= i0 < v0.images.len() && !rem_names.take(k as int + 1).contains(
                        (#[trigger] v0.images[i0]).path,
                    ) implies self@.images.contains(v0.images[i0]) by {
                    lemma_contains_push(rem_names.take(k as int), pk, v0.images[i0].path);
                    assert(before.images.contains(v0.images[i0]));
                    let b = choose|b: int|
                        0 <= b < before.images.len() && before.images[b] == v0.images[i0];
                    if res is Ok {
                        let ii = image_path_index(before.images, pk);
                        assert(b != ii);
                        assert(self@.images.contains(before.images[b]));
                    }
                }
            }
            k += 1;
        }
        proof {
            assert(rem_names.take(nrem as int) =~= rem_names);
        }
        // insert what is new on disk
        let mut k2: usize = 0;
        while k2 < nadd
            invariant
                k2 <= nadd,
                nadd == add_names.len(),
                add_names == names_of(to_add@),
                self.wf(),
                v0.next_image_id <= self@.next_image_id <= v0.next_image_id + k2,
                forall|p: Seq<char>|
                    #[trigger] has_image_path(self@.images, p) <==> ((has_image_path(v0.images, p)
                        && !rem_names.contains(p)) || add_names.take(k2 as int).contains(p)),
                forall|a: int|
                    0 <= a < self@.images.len() ==> (v0.images.contains(#[trigger] self@.images[a])
                        || (self@.images[a].tag_ids.len() == 0 && self@.images[a].id
                        >= v0.next_image_id)),
                forall|i0: int|
                    0 <= i0 < v0.images.len() && !rem_names.contains(
                        (#[trigger] v0.images[i0]).path,
                    ) ==> self@.images.contains(v0.images[i0]),
                nrem == 0 && nadd == 0 ==> *self == *old(self),
                scan.spec_is_scanning() == old(scan).spec_is_scanning(),
                scan.spec_scan_total() == total,
                scan.spec_scan_current() == nrem + k2,
            decreases nadd - k2,
        {
            scan.set_scan_current(nrem + k2 + 1);
            let ghost before = self@;
            let ghost pk = add_names[k2 as int];
            proof {
                assert(pk == to_add@[k2 as int]@);
                assert(add_names.take(k2 as int + 1) =~= add_names.take(k2 as int).push(pk));
                assert(self@.next_image_id < i64::MAX);
            }
            let res = self.try_insert_image(to_add[k2].as_str());
            proof {
                match res {
                    Ok(id) => {
                        let t = choose|t: i64|
                            self@ == (StoreView {
                                images: before.images.push(
                                    ImageView {
                                        id: id,
                                        path: pk,
                                        created_at_time: t,
                                        tag_ids: Seq::empty(),
                                    },
                                ),
                                tags: before.tags,
                                next_image_id: (id + 1) as i64,
                                next_tag_id: before.next_tag_id,
                            });
                        assert(self@.images == before.images.push(
                            ImageView { id: id, path: pk, created_at_time: t, tag_ids: Seq::empty() },
                        ));
                    },
                    Err(e) => {
                        assert(e == BackendError::DuplicatePath);
                        assert(has_image_path(before.images, pk));
                    },
                }
                assert forall|p: Seq<char>| #[trigger] has_image_path(self@.images, p) <==> ((
                has_image_path(v0.images, p) && !rem_names.contains(p)) || add_names.take(
                    k2 as int + 1,
                ).contains(p)) by {
                    lemma_contains_push(add_names.take(k2 as int), pk, p);
                    if res is Ok {
                        let m = before.images.len() as int;
                        if has_image_path(self@.images, p) {
                            let a = choose|a: int|
                                0 <= a < self@.images.len() && (#[trigger] self@.images[a]).path
                                    == p;
                            if a < m {
                                assert(before.images[a].path == p);
                                assert(has_image_path(before.images, p));
                            } else {
                                assert(p == pk);
                            }
                        }
                        if has_image_path(before.images, p) {
                            let a = choose|a: int|
                                0 <= a < before.images.len() && (#[trigger] before.images[a]).path
                                    == p;
                            assert(self@.images[a].path == p);
                            assert(has_image_path(self@.images, p));
                        }
                        if p == pk {
                            assert(self@.images[m].path == pk);
                            assert(has_image_path(self@.images, p));
                        }
                    }
                }
                assert forall|i0: int|
                    0 <= i0 < v0.images.len() && !rem_names.contains(
                        (#[trigger] v0.images[i0]).path,
                    ) implies self@.images.contains(v0.images[i0]) by {
                    assert(before.images.contains(v0.images[i0]));
                    let b = choose|b: int|
                        0 <= b < before.images.len() && before.images[b] == v0.images[i0];
                    assert(self@.images[b] == v0.images[i0]);
                }
                assert forall|a: int| 0 <= a < self@.images.len() implies (v0.images.contains(
                    #[trigger] self@.images[a],
                ) || (self@.images[a].tag_ids.len() == 0 && self@.images[a].id
                    >= v0.next_image_id)) by {
                    if res is Ok {
                        let m = before.images.len() as int;
                        if a < m {
                            assert(self@.images[a] == before.images[a]);
                        } else {
                            assert(self@.images[a].tag_ids.len() == 0);
                        }
                    }
                }
            }
            k2 += 1;
        }
        proof {
            assert(add_names.take(nadd as int) =~= add_names);
            // the store now knows exactly the listed paths
            assert forall|p: Seq<char>| #[trigger] has_image_path(self@.images, p) <==> disk.contains(
                p,
            ) by {
                if disk.contains(p) {
                    if has_image_path(v0.images, p) {
                        if rem_names.contains(p) {
                            let k0 = choose|k0: int|
                                0 <= k0 < rem_names.len() && rem_names[k0] == p;
                        }
                    } else {
                        let di = choose|di: int| 0 <= di < disk.len() && disk[di] == p;
                        disk.lemma_filter_contains(unknown_path_fn(v0), di);
                        assert(add_names.contains(p));
                    }
                } else {
                    if add_names.contains(p) {
                        let k0 = choose|k0: int| 0 <= k0 < add_names.len() && add_names[k0] == p;
                    }
                    if has_image_path(v0.images, p) && !rem_names.contains(p) {
                        let i0 = choose|i0: int|
                            0 <= i0 < v0.images.len() && (#[trigger] v0.images[i0]).path == p;
                        v0.images.lemma_filter_contains(not_on_disk_fn(disk), i0);
                        let f = v0.images.filter(not_on_disk_fn(disk));
                        let k0 = choose|k0: int| 0 <= k0 < f.len() && f[k0] == v0.images[i0];
                        assert(rem_names[k0] == p);
                        assert(rem_names.contains(p));
                    }
                }
            }
            // preserved rows
            assert forall|i0: int|
                0 <= i0 < v0.images.len() && disk.contains(
                    (#[trigger] v0.images[i0]).path,
                ) implies self@.images.contains(v0.images[i0]) by {
                if rem_names.contains(v0.images[i0].path) {
                    let k0 = choose|k0: int|
                        0 <= k0 < rem_names.len() && rem_names[k0] == v0.images[i0].path;
                }
            }
            // an already reconciled store is left untouched
            if reconciled(v0, disk) {
                if nrem > 0 {
                    assert(has_image_path(v0.images, rem_names[0]));
                    assert(disk.contains(rem_names[0]));
                }
                if nadd > 0 {
                    assert(disk.contains(add_names[0]));
                    assert(has_image_path(v0.images, add_names[0]));
                }
            }
        }
    }

    /// Requests a reconciliation pass against the given directory listing.
    /// While a pass is already running this is a no-op; otherwise one full
    /// pass runs and the progress state is reset to idle afterwards.
    pub fn reload_root(&mut self, on_disk: &Vec<String>, scan: &mut ScanData)
        requires
            old(self).wf(),
            names_of(on_disk@).no_duplicates(),
            old(self)@.images.len() + on_disk@.len() <= usize::MAX,
            old(self)@.next_image_id + on_disk@.len() <= i64::MAX,
        ensures
            final(self).wf(),
            old(scan).spec_is_scanning() ==> *final(self) == *old(self) && *final(scan) == *old(
                scan,
            ),
            !old(scan).spec_is_scanning() ==> {
                &&& reconciled(final(self)@, names_of(on_disk@))
                &&& forall|i: int|
                    0 <= i < old(self)@.images.len() && names_of(on_disk@).contains(
                        (#[trigger] old(self)@.images[i]).path,
                    ) ==> final(self)@.images.contains(old(self)@.images[i])
                &&& forall|a: int|
                    0 <= a < final(self)@.images.len() ==> (old(self)@.images.contains(
                        #[trigger] final(self)@.images[a],
                    ) || (final(self)@.images[a].tag_ids.len() == 0 && final(self)@.images[a].id
                        >= old(self)@.next_image_id))
                &&& (reconciled(old(self)@, names_of(on_disk@)) ==> *final(self) == *old(self))
                &&& !final(scan).spec_is_scanning()
                &&& final(scan).spec_scan_total() == 0
                &&& final(scan).spec_scan_current() == 0
            },
    {
        if scan.is_scanning() {
            return ;
        }
        scan.set_is_scanning(true);
        self.reload_root_pass(on_disk, scan);
        scan.set_is_scanning(false);
        scan.set_scan_total(0);
        scan.set_scan_current(0);
    }
}

} // verus!
