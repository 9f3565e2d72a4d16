use vstd::prelude::*;
use crate::error::ApiError;
use crate::handlers::files_handler::folder_entry;
use crate::message::{AppError, AppSuccess, FileType};
use crate::models::folder::{Folder, FolderCreateRequest, FolderDeleteRequest, FolderUpdateRequest};
use crate::models::user::Claims;
use crate::rows::{
    kept, lemma_kept_grows, lemma_kept_holds, lemma_origin, lemma_origin_place,
    lemma_origin_rises, origin,
};
use crate::store::{
    FolderRow, PhotoRow, PhotoTagRelation, Store, StoreView, clone_text, filing_ok, find_photo,
    folder_at, has_photo, lemma_photo_at, owns_folder, parent_ok, photo_at, relation_ok,
};
use crate::tree::{find_folder, in_subtree, lemma_folder_at, mark_subtree, parent_of};

verus! {

/// The row that a request to make a folder asks for.
pub open spec fn new_folder_row(id: i32, owner: i32, req: FolderCreateRequest) -> FolderRow {
    FolderRow {
        id,
        user_id: owner,
        name: req.name,
        description: req.description,
        parent_id: req.parent_id,
    }
}

/// A folder row under a new name and description.
pub open spec fn renamed_folder_row(row: FolderRow, req: FolderUpdateRequest) -> FolderRow {
    FolderRow {
        id: row.id,
        user_id: row.user_id,
        name: req.name,
        description: req.description,
        parent_id: row.parent_id,
    }
}

/// Whether `owner` has folder `id`.
pub fn folder_is_owned(store: &Store, owner: i32, id: i32) -> (r: bool)
    requires
        store.wf(),
    ensures
        r == owns_folder(store@.folders, owner, id),
{
    match find_folder(&store.folders, id) {
        Some(i) => {
            proof {
                lemma_folder_at(store@.folders, i as int);
                if owns_folder(store@.folders, owner, id) {
                    let k = choose|k: int|
                        0 <= k < store@.folders.len() && store@.folders[k].id == id
                            && store@.folders[k].user_id == owner;
                    lemma_folder_at(store@.folders, k);
                }
            }
            store.folders[i].user_id == owner
        },
        None => false,
    }
}

/// Rows that keep their ids, owners and parents keep the tables consistent.
pub proof fn lemma_folders_relabelled(v: StoreView, folders: Seq<FolderRow>)
    requires
        v.wf(),
        folders.len() == v.folders.len(),
        forall|i: int|
            0 <= i < folders.len() ==> (#[trigger] folders[i]).id == v.folders[i].id
                && folders[i].user_id == v.folders[i].user_id && folders[i].parent_id
                == v.folders[i].parent_id,
    ensures
        (StoreView { folders, ..v }).wf(),
        forall|owner: i32, id: i32|
            owns_folder(folders, owner, id) == owns_folder(v.folders, owner, id),
{
    assert forall|owner: i32, id: i32|
        owns_folder(folders, owner, id) == owns_folder(v.folders, owner, id) by {
        if owns_folder(folders, owner, id) {
            let k = choose|k: int|
                0 <= k < folders.len() && folders[k].id == id && folders[k].user_id == owner;
            assert(v.folders[k].id == id && v.folders[k].user_id == owner);
        }
        if owns_folder(v.folders, owner, id) {
            let k = choose|k: int|
                0 <= k < v.folders.len() && v.folders[k].id == id && v.folders[k].user_id == owner;
            assert(folders[k].id == id && folders[k].user_id == owner);
        }
    }
    assert forall|i: int| 0 <= i < folders.len() implies #[trigger] parent_ok(folders, i) by {
        assert(parent_ok(v.folders, i));
        match v.folders[i].parent_id {
            Some(p) => {
                let k = choose|k: int|
                    0 <= k < i && v.folders[k].id == p && v.folders[k].user_id
                        == v.folders[i].user_id;
                assert(folders[k].id == p && folders[k].user_id == folders[i].user_id);
            },
            None => {},
        }
    }
    assert forall|i: int| 0 <= i < v.photos.len() implies filing_ok(
        folders,
        #[trigger] v.photos[i],
    ) by {
        assert(filing_ok(v.folders, v.photos[i]));
    }
}

/// A new row under the next id, hung under a folder of its owner or under
/// none, keeps the tables consistent.
pub proof fn lemma_folder_added(v: StoreView, row: FolderRow)
    requires
        v.wf(),
        v.next_folder_id < i32::MAX,
        row.id == v.next_folder_id,
        match row.parent_id {
            Some(p) => owns_folder(v.folders, row.user_id, p),
            None => true,
        },
    ensures
        (StoreView {
            folders: v.folders.push(row),
            next_folder_id: v.next_folder_id + 1,
            ..v
        }).wf(),
{
    let folders = v.folders.push(row);
    assert forall|owner: i32, id: i32| owns_folder(v.folders, owner, id) implies owns_folder(
        folders,
        owner,
        id,
    ) by {
        let k = choose|k: int|
            0 <= k < v.folders.len() && v.folders[k].id == id && v.folders[k].user_id == owner;
        assert(folders[k].id == id && folders[k].user_id == owner);
    }
    assert forall|i: int| 0 <= i < folders.len() implies #[trigger] parent_ok(folders, i) by {
        if i < v.folders.len() {
            assert(parent_ok(v.folders, i));
            match v.folders[i].parent_id {
                Some(p) => {
                    let k = choose|k: int|
                        0 <= k < i && v.folders[k].id == p && v.folders[k].user_id
                            == v.folders[i].user_id;
                    assert(folders[k].id == p && folders[k].user_id == folders[i].user_id);
                },
                None => {},
            }
        } else {
            match row.parent_id {
                Some(p) => {
                    let k = choose|k: int|
                        0 <= k < v.folders.len() && v.folders[k].id == p && v.folders[k].user_id
                            == row.user_id;
                    assert(folders[k].id == p && folders[k].user_id == folders[i].user_id);
                },
                None => {},
            }
        }
    }
    assert forall|i: int| 0 <= i < v.photos.len() implies filing_ok(
        folders,
        #[trigger] v.photos[i],
    ) by {
        assert(filing_ok(v.folders, v.photos[i]));
    }
    assert forall|i: int, j: int| 0 <= i < j < folders.len() implies folders[i].id
        != folders[j].id by {
        if j == v.folders.len() {
            assert(v.folders[i].id < v.next_folder_id);
        }
    }
}

/// Makes a folder for the holder of `claims` and returns its id.
///
/// The folder hangs under `parent_id` where one is given; a parent that does
/// not exist or belongs to someone else is refused, and so is a new folder
/// when the ids have run out. A refusal changes nothing.
pub fn create_folder(store: &mut Store, claims: &Claims, req: &FolderCreateRequest) -> (r: Result<
    i32,
    ApiError,
>)
    requires
        old(store).wf(),
    ensures
        final(store).wf(),
        match req.parent_id {
            Some(p) if !owns_folder(old(store)@.folders, claims.user_id, p) => r == Err::<
                i32,
                ApiError,
            >(ApiError::FolderNotFound { folder_id: p }) && final(store)@ == old(store)@,
            _ => if old(store)@.next_folder_id == i32::MAX {
                r == Err::<i32, ApiError>(ApiError::Internal(AppError::CreateFolderFailed))
                    && final(store)@ == old(store)@
            } else {
                r == Ok::<i32, ApiError>(old(store)@.next_folder_id as i32) && final(store)@ == (
                StoreView {
                    folders: old(store)@.folders.push(
                        new_folder_row(old(store)@.next_folder_id as i32, claims.user_id, *req),
                    ),
                    next_folder_id: old(store)@.next_folder_id + 1,
                    ..old(store)@
                })
            },
        },
{
    let owner = claims.user_id;
    match req.parent_id {
        Some(p) => {
            if !folder_is_owned(store, owner, p) {
                return Err(ApiError::FolderNotFound { folder_id: p });
            }
        },
        None => {},
    }
    if store.next_folder_id == i32::MAX {
        return Err(ApiError::Internal(AppError::CreateFolderFailed));
    }
    let id = store.next_folder_id;
    let row = FolderRow {
        id,
        user_id: owner,
        name: req.name.clone(),
        description: clone_text(&req.description),
        parent_id: req.parent_id,
    };
    proof {
        lemma_folder_added(store@, row);
    }
    store.folders.push(row);
    store.next_folder_id = id + 1;
    Ok(id)
}

/// Gives folder `folder_id` of the holder of `claims` a new name and
/// description, and reports the folder as it then is.
///
/// A folder that does not exist and a folder of someone else are refused
/// alike, and nothing changes.
pub fn update_folder(store: &mut Store, claims: &Claims, req: &FolderUpdateRequest) -> (r: Result<
    Folder,
    ApiError,
>)
    requires
        old(store).wf(),
    ensures
        final(store).wf(),
        !owns_folder(old(store)@.folders, claims.user_id, req.folder_id) ==> r == Err::<
            Folder,
            ApiError,
        >(ApiError::FolderNotFound { folder_id: req.folder_id }) && final(store)@ == old(store)@,
        owns_folder(old(store)@.folders, claims.user_id, req.folder_id) ==> ({
            let i = folder_at(old(store)@.folders, req.folder_id);
            let row = renamed_folder_row(old(store)@.folders[i], *req);
            &&& r == Ok::<Folder, ApiError>(folder_entry(row, None, None))
            &&& final(store)@ == (StoreView {
                folders: old(store)@.folders.update(i, row),
                ..old(store)@
            })
        }),
{
    let owner = claims.user_id;
    let i = match find_folder(&store.folders, req.folder_id) {
        Some(i) => i,
        None => {
            return Err(ApiError::FolderNotFound { folder_id: req.folder_id });
        },
    };
    proof {
        lemma_folder_at(store@.folders, i as int);
    }
    if store.folders[i].user_id != owner {
        return Err(ApiError::FolderNotFound { folder_id: req.folder_id });
    }
    let row = FolderRow {
        id: store.folders[i].id,
        user_id: store.folders[i].user_id,
        name: req.name.clone(),
        description: clone_text(&req.description),
        parent_id: store.folders[i].parent_id,
    };
    let reported = Folder {
        id: row.id,
        user_id: Some(row.user_id),
        name: req.name.clone(),
        description: clone_text(&req.description),
        parent_id: row.parent_id,
        total_photo_count: None,
        total_photo_size: None,
    };
    proof {
        lemma_folders_relabelled(store@, store@.folders.update(i as int, row));
    }
    store.folders.set(i, row);
    Ok(reported)
}

/// Holds of the folder rows that are neither `root` nor below it.
pub open spec fn outside_subtree(folders: Seq<FolderRow>, root: i32) -> spec_fn(FolderRow) -> bool {
    |f: FolderRow| !in_subtree(folders, root, f.id)
}

/// Whether a photo lies in `root` or anywhere below it, and so goes with it.
pub open spec fn is_doomed(folders: Seq<FolderRow>, root: i32, p: PhotoRow) -> bool {
    match p.folder_id {
        Some(f) => in_subtree(folders, root, f),
        None => false,
    }
}

/// Holds of the photo rows that stay when `root` goes.
pub open spec fn not_doomed(folders: Seq<FolderRow>, root: i32) -> spec_fn(PhotoRow) -> bool {
    |p: PhotoRow| !is_doomed(folders, root, p)
}

/// Holds of the relations that stay when `root` goes: those of the photos that stay.
pub open spec fn not_of_doomed(folders: Seq<FolderRow>, photos: Seq<PhotoRow>, root: i32) -> spec_fn(
    PhotoTagRelation,
) -> bool {
    |r: PhotoTagRelation|
        !(has_photo(photos, r.photo_id) && is_doomed(
            folders,
            root,
            photos[photo_at(photos, r.photo_id)],
        ))
}

/// The record without folder `root`, without the folders below it, without
/// the photos in any of these and without the relations of those photos.
pub open spec fn without_subtree(v: StoreView, root: i32) -> StoreView {
    StoreView {
        folders: kept(v.folders, outside_subtree(v.folders, root), v.folders.len() as int),
        photos: kept(v.photos, not_doomed(v.folders, root), v.photos.len() as int),
        relations: kept(
            v.relations,
            not_of_doomed(v.folders, v.photos, root),
            v.relations.len() as int,
        ),
        ..v
    }
}

/// Of the first `n` photo rows, the image paths of those that go with `root`.
pub open spec fn doomed_paths(folders: Seq<FolderRow>, photos: Seq<PhotoRow>, root: i32, n: int) -> Seq<
    String,
>
    decreases n,
{
    if n <= 0 {
        Seq::empty()
    } else {
        let rest = doomed_paths(folders, photos, root, n - 1);
        if is_doomed(folders, root, photos[n - 1]) {
            rest.push(photos[n - 1].image_path)
        } else {
            rest
        }
    }
}

/// The record after the first `n` of the folders `ids` were deleted for
/// `owner`, one after the other, each with all that lies below it; or the
/// first of these ids under which `owner` had no folder when its turn came.
pub open spec fn cascade(v: StoreView, owner: i32, ids: Seq<i32>, n: int) -> Result<StoreView, i32>
    decreases n,
{
    if n <= 0 {
        Ok(v)
    } else {
        match cascade(v, owner, ids, n - 1) {
            Err(id) => Err(id),
            Ok(w) => if owns_folder(w.folders, owner, ids[n - 1]) {
                Ok(without_subtree(w, ids[n - 1]))
            } else {
                Err(ids[n - 1])
            },
        }
    }
}

/// The image paths of the photos that go while the first `n` of the folders
/// `ids` are deleted, in the order in which they go. After a folder is
/// found missing no more go.
pub open spec fn cascade_paths(v: StoreView, owner: i32, ids: Seq<i32>, n: int) -> Seq<String>
    decreases n,
{
    if n <= 0 {
        Seq::empty()
    } else {
        let rest = cascade_paths(v, owner, ids, n - 1);
        match cascade(v, owner, ids, n - 1) {
            Err(_) => rest,
            Ok(w) => if owns_folder(w.folders, owner, ids[n - 1]) {
                rest + doomed_paths(w.folders, w.photos, ids[n - 1], w.photos.len() as int)
            } else {
                rest
            },
        }
    }
}

/// Taking a folder away with all that lies below it keeps the tables
/// consistent: no folder is left without its parent, no photo without its
/// folder, no relation without its photo.
pub proof fn lemma_without_subtree_wf(v: StoreView, root: i32)
    requires
        v.wf(),
    ensures
        without_subtree(v, root).wf(),
{
    let w = without_subtree(v, root);
    let keep_folder = outside_subtree(v.folders, root);
    let keep_photo = not_doomed(v.folders, root);
    let keep_relation = not_of_doomed(v.folders, v.photos, root);
    let nf = v.folders.len() as int;
    let np = v.photos.len() as int;
    let nr = v.relations.len() as int;
    assert forall|i: int, j: int| 0 <= i < j < w.folders.len() implies w.folders[i].id
        != w.folders[j].id by {
        lemma_origin(v.folders, keep_folder, nf, i);
        lemma_origin(v.folders, keep_folder, nf, j);
        lemma_origin_rises(v.folders, keep_folder, nf, i, j);
    }
    assert forall|i: int| 0 <= i < w.folders.len() implies (#[trigger] w.folders[i]).id
        < w.next_folder_id by {
        lemma_origin(v.folders, keep_folder, nf, i);
    }
    assert forall|i: int| 0 <= i < w.folders.len() implies #[trigger] parent_ok(w.folders, i) by {
        lemma_origin(v.folders, keep_folder, nf, i);
        lemma_origin_place(v.folders, keep_folder, nf, i);
        let a = origin(v.folders, keep_folder, nf, i);
        let f = v.folders[a];
        assert(parent_ok(v.folders, a));
        lemma_folder_at(v.folders, a);
        match f.parent_id {
            Some(p) => {
                let k = choose|k: int|
                    0 <= k < a && v.folders[k].id == p && v.folders[k].user_id == f.user_id;
                lemma_folder_at(v.folders, k);
                assert(parent_of(v.folders, f.id) == Some(p));
                assert(keep_folder(v.folders[k]));
                lemma_kept_holds(v.folders, keep_folder, nf, k);
                lemma_kept_grows(v.folders, keep_folder, k + 1, a);
                let c = kept(v.folders, keep_folder, k).len() as int;
                assert(kept(v.folders, keep_folder, k + 1).len() == c + 1);
                assert(w.folders[c].id == p && w.folders[c].user_id == f.user_id);
            },
            None => {},
        }
    }
    assert forall|i: int, j: int| 0 <= i < j < w.photos.len() implies w.photos[i].id
        != w.photos[j].id by {
        lemma_origin(v.photos, keep_photo, np, i);
        lemma_origin(v.photos, keep_photo, np, j);
        lemma_origin_rises(v.photos, keep_photo, np, i, j);
    }
    assert forall|i: int| 0 <= i < w.photos.len() implies (#[trigger] w.photos[i]).id
        < w.next_photo_id && filing_ok(w.folders, w.photos[i]) by {
        lemma_origin(v.photos, keep_photo, np, i);
        let a = origin(v.photos, keep_photo, np, i);
        let p = v.photos[a];
        assert(filing_ok(v.folders, p));
        match p.folder_id {
            Some(f) => {
                let k = choose|k: int|
                    0 <= k < v.folders.len() && v.folders[k].id == f && v.folders[k].user_id
                        == p.user_id;
                assert(keep_folder(v.folders[k]));
                lemma_kept_holds(v.folders, keep_folder, nf, k);
                let c = kept(v.folders, keep_folder, k).len() as int;
                assert(w.folders[c].id == f && w.folders[c].user_id == p.user_id);
            },
            None => {},
        }
    }
    assert forall|i: int, j: int| 0 <= i < j < w.relations.len() implies w.relations[i]
        != w.relations[j] by {
        lemma_origin(v.relations, keep_relation, nr, i);
        lemma_origin(v.relations, keep_relation, nr, j);
        lemma_origin_rises(v.relations, keep_relation, nr, i, j);
    }
    assert forall|i: int| 0 <= i < w.relations.len() implies relation_ok(
        w.photos,
        w.tags,
        #[trigger] w.relations[i],
    ) by {
        let r = w.relations[i];
        lemma_origin(v.relations, keep_relation, nr, i);
        let k = origin(v.relations, keep_relation, nr, i);
        assert(relation_ok(v.photos, v.tags, v.relations[k]));
        let (a, b) = choose|a: int, b: int|
            0 <= a < v.photos.len() && 0 <= b < v.tags.len() && v.photos[a].id == r.photo_id
                && v.tags[b].id == r.tag_id && v.photos[a].user_id == v.tags[b].user_id;
        lemma_photo_at(v.photos, a);
        assert(keep_photo(v.photos[a]));
        lemma_kept_holds(v.photos, keep_photo, np, a);
        let c = kept(v.photos, keep_photo, a).len() as int;
        assert(w.photos[c].id == r.photo_id && w.photos[c].user_id == w.tags[b].user_id);
    }
}

/// Once a folder was found missing, the deletion stays given up: no further
/// folder changes the outcome, and no further image goes.
pub proof fn lemma_cascade_given_up(v: StoreView, owner: i32, ids: Seq<i32>, n: int, m: int)
    requires
        0 <= n <= m,
        cascade(v, owner, ids, n) is Err,
    ensures
        cascade(v, owner, ids, m) == cascade(v, owner, ids, n),
        cascade_paths(v, owner, ids, m) == cascade_paths(v, owner, ids, n),
    decreases m - n,
{
    if n < m {
        lemma_cascade_given_up(v, owner, ids, n, m - 1);
    }
}

/// Takes folder `root` out of the record with all that lies below it, and
/// returns the image paths of the photos that went with it.
fn remove_subtree(store: &mut Store, root: i32) -> (paths: Vec<String>)
    requires
        old(store).wf(),
    ensures
        final(store).wf(),
        final(store)@ == without_subtree(old(store)@, root),
        paths@ == doomed_paths(
            old(store)@.folders,
            old(store)@.photos,
            root,
            old(store)@.photos.len() as int,
        ),
{
    let marks = mark_subtree(&store.folders, root);
    let mut folders: Vec<FolderRow> = Vec::new();
    let mut i: usize = 0;
    while i < store.folders.len()
        invariant
            i <= store.folders.len(),
            marks.len() == store.folders.len(),
            forall|j: int|
                0 <= j < store.folders.len() ==> marks[j] == in_subtree(
                    store@.folders,
                    root,
                    store@.folders[j].id,
                ),
            folders@ == kept(store@.folders, outside_subtree(store@.folders, root), i as int),
        decreases store.folders.len() - i,
    {
        if !marks[i] {
            folders.push(store.folders[i].clone());
        }
        i += 1;
    }
    let mut photos: Vec<PhotoRow> = Vec::new();
    let mut doomed: Vec<bool> = Vec::new();
    let mut paths: Vec<String> = Vec::new();
    let mut i: usize = 0;
    while i < store.photos.len()
        invariant
            store.wf(),
            i <= store.photos.len(),
            marks.len() == store.folders.len(),
            forall|j: int|
                0 <= j < store.folders.len() ==> marks[j] == in_subtree(
                    store@.folders,
                    root,
                    store@.folders[j].id,
                ),
            doomed.len() == i,
            forall|j: int|
                0 <= j < i ==> doomed[j] == is_doomed(store@.folders, root, store@.photos[j]),
            photos@ == kept(store@.photos, not_doomed(store@.folders, root), i as int),
            paths@ == doomed_paths(store@.folders, store@.photos, root, i as int),
        decreases store.photos.len() - i,
    {
        let row = &store.photos[i];
        let goes = match row.folder_id {
            Some(f) => match find_folder(&store.folders, f) {
                Some(k) => {
                    proof {
                        lemma_folder_at(store@.folders, k as int);
                    }
                    marks[k]
                },
                None => false,
            },
            None => false,
        };
        doomed.push(goes);
        if goes {
            paths.push(row.image_path.clone());
        } else {
            photos.push(row.clone());
        }
        i += 1;
    }
    let mut relations: Vec<PhotoTagRelation> = Vec::new();
    let mut k: usize = 0;
    while k < store.relations.len()
        invariant
            store.wf(),
            k <= store.relations.len(),
            doomed.len() == store.photos.len(),
            forall|j: int|
                0 <= j < store.photos.len() ==> doomed[j] == is_doomed(
                    store@.folders,
                    root,
                    store@.photos[j],
                ),
            relations@ == kept(
                store@.relations,
                not_of_doomed(store@.folders, store@.photos, root),
                k as int,
            ),
        decreases store.relations.len() - k,
    {
        let r = store.relations[k];
        let goes = match find_photo(&store.photos, r.photo_id) {
            Some(a) => {
                proof {
                    lemma_photo_at(store@.photos, a as int);
                }
                doomed[a]
            },
            None => false,
        };
        if !goes {
            relations.push(r);
        }
        k += 1;
    }
    proof {
        lemma_without_subtree_wf(store@, root);
    }
    store.folders = folders;
    store.photos = photos;
    store.relations = relations;
    paths
}

/// Deletes the folders `ids` for `owner` on a copy of the record, one after
/// the other, and returns the copy, or the first id under which `owner` had
/// no folder when its turn came, and the image paths of the photos that went.
fn run_cascade(store: &Store, owner: i32, ids: &Vec<i32>) -> (r: (Result<Store, i32>, Vec<String>))
    requires
        store.wf(),
    ensures
        match r.0 {
            Ok(after) => after.wf() && cascade(store@, owner, ids@, ids.len() as int) == Ok::<
                StoreView,
                i32,
            >(after@),
            Err(id) => cascade(store@, owner, ids@, ids.len() as int) == Err::<StoreView, i32>(id),
        },
        r.1@ == cascade_paths(store@, owner, ids@, ids.len() as int),
{
    let mut cur = store.snapshot();
    let mut paths: Vec<String> = Vec::new();
    let mut i: usize = 0;
    while i < ids.len()
        invariant
            i <= ids.len(),
            cur.wf(),
            cascade(store@, owner, ids@, i as int) == Ok::<StoreView, i32>(cur@),
            paths@ == cascade_paths(store@, owner, ids@, i as int),
        decreases ids.len() - i,
    {
        let id = ids[i];
        if !folder_is_owned(&cur, owner, id) {
            proof {
                lemma_cascade_given_up(store@, owner, ids@, i + 1, ids.len() as int);
            }
            return (Err(id), paths);
        }
        let mut gone = remove_subtree(&mut cur, id);
        paths.append(&mut gone);
        i += 1;
    }
    (Ok(cur), paths)
}

/// The image paths of the photos that go when the folders `req.ids` of the
/// holder of `claims` are deleted, in the order in which they go. Each of
/// them is to be removed from the blob store, in this order and up to the
/// first failure, before the deletion is recorded.
pub fn folder_deletion_paths(store: &Store, claims: &Claims, req: &FolderDeleteRequest) -> (r: Vec<
    String,
>)
    requires
        store.wf(),
    ensures
        r@ == cascade_paths(store@, claims.user_id, req.ids@, req.ids@.len() as int),
{
    run_cascade(store, claims.user_id, &req.ids).1
}

/// Deletes the folders `req.ids` of the holder of `claims`, one after the
/// other, each with the folders below it, the photos in any of them and the
/// relations of those photos. `blob_failure` holds what went wrong when an
/// image of these photos could not be removed from the blob store.
///
/// All of it happens or none of it: where an image could not be removed,
/// and where the caller has no folder under one of the ids when its turn
/// comes, the request is refused and the record stays as it was.
pub fn delete_folder(
    store: &mut Store,
    claims: &Claims,
    req: &FolderDeleteRequest,
    blob_failure: Option<String>,
) -> (r: Result<AppSuccess, ApiError>)
    requires
        old(store).wf(),
    ensures
        final(store).wf(),
        match blob_failure {
            Some(detail) => r == Err::<AppSuccess, ApiError>(ApiError::BlobStore { detail })
                && final(store)@ == old(store)@,
            None => match cascade(old(store)@, claims.user_id, req.ids@, req.ids@.len() as int) {
                Err(id) => r == Err::<AppSuccess, ApiError>(
                    ApiError::FolderNotFound { folder_id: id },
                ) && final(store)@ == old(store)@,
                Ok(after) => r == Ok::<AppSuccess, ApiError>(AppSuccess::Deleted(FileType::Folder))
                    && final(store)@ == after,
            },
        },
{
    match blob_failure {
        Some(detail) => {
            return Err(ApiError::BlobStore { detail });
        },
        None => {},
    }
    match run_cascade(store, claims.user_id, &req.ids).0 {
        Ok(after) => {
            *store = after;
            Ok(AppSuccess::Deleted(FileType::Folder))
        },
        Err(id) => Err(ApiError::FolderNotFound { folder_id: id }),
    }
}

} // verus!
