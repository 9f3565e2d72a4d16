use vstd::prelude::*;
use crate::error::ApiError;
use crate::handlers::folder_handler::folder_is_owned;
use crate::message::{AppError, FileType};
use crate::message::AppSuccess;
use crate::handlers::files_handler::{label_list, labels_of_photo};
use crate::handlers::tags_handler::{
    lemma_relation_added, photo_is_owned, relation_listed, with_relation,
};
use crate::models::photo::{
    PhotoDeleteRequest, PhotoMoveRequest, PhotoResponse, PhotoSearchRequest, PhotoUpdateRequest,
    PhotoUploadRequest, PhotoWrapper, TagAddRequest,
};
use crate::text::{split_labels, split_tag_labels};
use crate::models::tag::{Tag, TagResponse};
use crate::rows::{kept, lemma_kept_holds, lemma_origin, lemma_origin_rises, origin};
use crate::models::user::Claims;
use crate::store::{
    PhotoRow, PhotoTagRelation, Store, StoreView, TagRow, clone_text, filing_ok, find_photo,
    find_tag, has_photo, has_tag, lemma_photo_at, lemma_tag_at, owns_folder, owns_photo,
    owns_tag, photo_at, relation_ok, tag_at,
};
use vstd::string::*;

verus! {

/// Whether `id` is among `ids`.
pub fn id_listed(ids: &Vec<i32>, id: i32) -> (r: bool)
    ensures
        r == ids@.contains(id),
{
    let mut i: usize = 0;
    while i < ids.len()
        invariant
            i <= ids.len(),
            forall|j: int| 0 <= j < i ==> ids[j] != id,
        decreases ids.len() - i,
    {
        if ids[i] == id {
            return true;
        }
        i += 1;
    }
    false
}

/// A photo row as a search or an update reports it.
pub open spec fn photo_response(row: PhotoRow) -> PhotoResponse {
    PhotoResponse {
        id: row.id,
        name: row.name,
        description: row.description,
        image_path: row.image_path,
        folder_id: row.folder_id,
        width: row.width,
        height: row.height,
    }
}

/// A photo row as a search or an update reports it.
pub fn respond_photo(row: &PhotoRow) -> (r: PhotoResponse)
    ensures
        r == photo_response(*row),
{
    PhotoResponse {
        id: row.id,
        name: row.name.clone(),
        description: clone_text(&row.description),
        image_path: row.image_path.clone(),
        folder_id: row.folder_id,
        width: row.width,
        height: row.height,
    }
}

/// Rows that keep their ids and owners, each in a folder of its owner or in
/// none, keep the tables consistent.
pub proof fn lemma_photos_relabelled(v: StoreView, photos: Seq<PhotoRow>)
    requires
        v.wf(),
        photos.len() == v.photos.len(),
        forall|i: int|
            0 <= i < photos.len() ==> (#[trigger] photos[i]).id == v.photos[i].id
                && photos[i].user_id == v.photos[i].user_id && filing_ok(v.folders, photos[i]),
    ensures
        (StoreView { photos, ..v }).wf(),
{
    assert forall|i: int| 0 <= i < v.relations.len() implies relation_ok(
        photos,
        v.tags,
        #[trigger] v.relations[i],
    ) by {
        let r = v.relations[i];
        assert(relation_ok(v.photos, v.tags, r));
        let (a, b) = choose|a: int, b: int|
            0 <= a < v.photos.len() && 0 <= b < v.tags.len() && v.photos[a].id == r.photo_id
                && v.tags[b].id == r.tag_id && v.photos[a].user_id == v.tags[b].user_id;
        assert(photos[a].id == r.photo_id && photos[a].user_id == v.tags[b].user_id);
    }
}

/// A new row under the next id, in a folder of its owner or in none, keeps
/// the tables consistent.
pub proof fn lemma_photo_added(v: StoreView, row: PhotoRow)
    requires
        v.wf(),
        v.next_photo_id < i32::MAX,
        row.id == v.next_photo_id,
        filing_ok(v.folders, row),
    ensures
        (StoreView { photos: v.photos.push(row), next_photo_id: v.next_photo_id + 1, ..v }).wf(),
{
    let photos = v.photos.push(row);
    assert forall|i: int, j: int| 0 <= i < j < photos.len() implies photos[i].id
        != photos[j].id by {
        if j == v.photos.len() {
            assert(v.photos[i].id < v.next_photo_id);
        }
    }
    assert forall|i: int| 0 <= i < v.relations.len() implies relation_ok(
        photos,
        v.tags,
        #[trigger] v.relations[i],
    ) by {
        let r = v.relations[i];
        assert(relation_ok(v.photos, v.tags, r));
        let (a, b) = choose|a: int, b: int|
            0 <= a < v.photos.len() && 0 <= b < v.tags.len() && v.photos[a].id == r.photo_id
                && v.tags[b].id == r.tag_id && v.photos[a].user_id == v.tags[b].user_id;
        assert(photos[a].id == r.photo_id && photos[a].user_id == v.tags[b].user_id);
    }
}

/// The row that an upload asks for. It has no measures yet.
pub open spec fn uploaded_row(id: i32, owner: i32, req: PhotoUploadRequest, uploaded_at: i64) -> PhotoRow {
    PhotoRow {
        id,
        user_id: owner,
        name: req.name->Some_0,
        description: req.description,
        folder_id: req.folder_id,
        image_path: req.image_path,
        uploaded_at,
        size_in_bytes: req.size_in_bytes,
        width: 0,
        height: 0,
    }
}

/// Records a photo of the holder of `claims`, uploaded at `uploaded_at`, and
/// returns its id.
///
/// A folder that does not exist or belongs to someone else is refused. A
/// photo without a name cannot be recorded, nor any photo once the ids have
/// run out. A refusal changes nothing.
pub fn upload_photo(
    store: &mut Store,
    claims: &Claims,
    req: &PhotoUploadRequest,
    uploaded_at: i64,
) -> (r: Result<i32, ApiError>)
    requires
        old(store).wf(),
    ensures
        final(store).wf(),
        match req.folder_id {
            Some(f) if !owns_folder(old(store)@.folders, claims.user_id, f) => r == Err::<
                i32,
                ApiError,
            >(ApiError::FolderNotFound { folder_id: f }) && final(store)@ == old(store)@,
            _ => if req.name is None || old(store)@.next_photo_id == i32::MAX {
                r == Err::<i32, ApiError>(
                    ApiError::Internal(AppError::UploadFailed(FileType::Photo)),
                ) && final(store)@ == old(store)@
            } else {
                r == Ok::<i32, ApiError>(old(store)@.next_photo_id as i32) && final(store)@ == (
                StoreView {
                    photos: old(store)@.photos.push(
                        uploaded_row(
                            old(store)@.next_photo_id as i32,
                            claims.user_id,
                            *req,
                            uploaded_at,
                        ),
                    ),
                    next_photo_id: old(store)@.next_photo_id + 1,
                    ..old(store)@
                })
            },
        },
{
    let owner = claims.user_id;
    match req.folder_id {
        Some(f) => {
            if !folder_is_owned(store, owner, f) {
                return Err(ApiError::FolderNotFound { folder_id: f });
            }
        },
        None => {},
    }
    let name = match &req.name {
        Some(name) => name.clone(),
        None => {
            return Err(ApiError::Internal(AppError::UploadFailed(FileType::Photo)));
        },
    };
    if store.next_photo_id == i32::MAX {
        return Err(ApiError::Internal(AppError::UploadFailed(FileType::Photo)));
    }
    let id = store.next_photo_id;
    let row = PhotoRow {
        id,
        user_id: owner,
        name,
        description: clone_text(&req.description),
        folder_id: req.folder_id,
        image_path: req.image_path.clone(),
        uploaded_at,
        size_in_bytes: req.size_in_bytes,
        width: 0,
        height: 0,
    };
    proof {
        lemma_photo_added(store@, row);
    }
    store.photos.push(row);
    store.next_photo_id = id + 1;
    Ok(id)
}

/// A photo row with the name and the description of the request, each
/// where the request gives one.
pub open spec fn retitled_row(row: PhotoRow, req: PhotoUpdateRequest) -> PhotoRow {
    PhotoRow {
        name: match req.name {
            Some(name) => name,
            None => row.name,
        },
        description: match req.description {
            Some(text) => Some(text),
            None => row.description,
        },
        ..row
    }
}

/// Gives photo `id` of the holder of `claims` the name and the description
/// of the request, keeping what the request leaves out, and reports the
/// photo as it then is.
///
/// A photo that does not exist and a photo of someone else are refused
/// alike, and nothing changes.
pub fn update_photo(store: &mut Store, claims: &Claims, req: &PhotoUpdateRequest) -> (r: Result<
    PhotoResponse,
    ApiError,
>)
    requires
        old(store).wf(),
    ensures
        final(store).wf(),
        !owns_photo(old(store)@.photos, claims.user_id, req.id) ==> r == Err::<
            PhotoResponse,
            ApiError,
        >(ApiError::PhotoNotFound) && final(store)@ == old(store)@,
        owns_photo(old(store)@.photos, claims.user_id, req.id) ==> ({
            let i = photo_at(old(store)@.photos, req.id);
            let row = retitled_row(old(store)@.photos[i], *req);
            &&& r == Ok::<PhotoResponse, ApiError>(photo_response(row))
            &&& final(store)@ == (StoreView {
                photos: old(store)@.photos.update(i, row),
                ..old(store)@
            })
        }),
{
    let owner = claims.user_id;
    let i = match find_photo(&store.photos, req.id) {
        Some(i) => i,
        None => {
            return Err(ApiError::PhotoNotFound);
        },
    };
    proof {
        lemma_photo_at(store@.photos, i as int);
    }
    if store.photos[i].user_id != owner {
        return Err(ApiError::PhotoNotFound);
    }
    let current = &store.photos[i];
    let row = PhotoRow {
        id: current.id,
        user_id: current.user_id,
        name: match &req.name {
            Some(name) => name.clone(),
            None => current.name.clone(),
        },
        description: match &req.description {
            Some(text) => Some(text.clone()),
            None => clone_text(&current.description),
        },
        folder_id: current.folder_id,
        image_path: current.image_path.clone(),
        uploaded_at: current.uploaded_at,
        size_in_bytes: current.size_in_bytes,
        width: current.width,
        height: current.height,
    };
    let reported = respond_photo(&row);
    proof {
        assert(filing_ok(store@.folders, store@.photos[i as int]));
        lemma_photos_relabelled(store@, store@.photos.update(i as int, row));
    }
    store.photos.set(i, row);
    Ok(reported)
}

/// Whether a photo row is `owner`'s and among those asked for.
pub open spec fn is_picked(row: PhotoRow, owner: i32, ids: Seq<i32>) -> bool {
    row.user_id == owner && ids.contains(row.id)
}

/// How many of the first `n` photo rows are `owner`'s and among those asked for.
pub open spec fn picked_count(photos: Seq<PhotoRow>, owner: i32, ids: Seq<i32>, n: int) -> nat
    decreases n,
{
    if n <= 0 {
        0
    } else {
        picked_count(photos, owner, ids, n - 1) + if is_picked(photos[n - 1], owner, ids) {
            1nat
        } else {
            0nat
        }
    }
}

/// A photo row put into folder `dest`.
pub open spec fn refiled(row: PhotoRow, dest: i32) -> PhotoRow {
    PhotoRow { folder_id: Some(dest), ..row }
}

/// The photo rows after `owner`'s photos among `ids` went to folder `dest`.
pub open spec fn moved_rows(photos: Seq<PhotoRow>, owner: i32, ids: Seq<i32>, dest: i32) -> Seq<
    PhotoRow,
> {
    Seq::new(
        photos.len(),
        |i: int|
            if is_picked(photos[i], owner, ids) {
                refiled(photos[i], dest)
            } else {
                photos[i]
            },
    )
}

proof fn lemma_picked_count_bound(photos: Seq<PhotoRow>, owner: i32, ids: Seq<i32>, n: int)
    requires
        0 <= n <= photos.len(),
    ensures
        picked_count(photos, owner, ids, n) <= n,
    decreases n,
{
    if n > 0 {
        lemma_picked_count_bound(photos, owner, ids, n - 1);
    }
}

/// Puts the photos `ids` of the holder of `claims` into folder `folder_id`,
/// all at once, and returns how many went there.
///
/// Ids of photos that do not exist or belong to someone else are passed
/// over. The request is refused, and nothing changes, where it names no id,
/// where the folder does not exist or is not the caller's, and where none of
/// the photos is the caller's.
pub fn move_photo(store: &mut Store, claims: &Claims, req: &PhotoMoveRequest) -> (r: Result<
    usize,
    ApiError,
>)
    requires
        old(store).wf(),
    ensures
        final(store).wf(),
        ({
            let before = old(store)@;
            let owner = claims.user_id;
            let n = picked_count(before.photos, owner, req.ids@, before.photos.len() as int);
            if req.ids@.len() == 0 {
                r == Err::<usize, ApiError>(ApiError::EmptyIdList) && final(store)@ == before
            } else if !owns_folder(before.folders, owner, req.folder_id) {
                r == Err::<usize, ApiError>(ApiError::FolderNotFound { folder_id: req.folder_id })
                    && final(store)@ == before
            } else if n == 0 {
                r == Err::<usize, ApiError>(ApiError::PhotoNotFound) && final(store)@ == before
            } else {
                r == Ok::<usize, ApiError>(n as usize) && final(store)@ == (StoreView {
                    photos: moved_rows(before.photos, owner, req.ids@, req.folder_id),
                    ..before
                })
            }
        }),
{
    let owner = claims.user_id;
    if req.ids.len() == 0 {
        return Err(ApiError::EmptyIdList);
    }
    if !folder_is_owned(store, owner, req.folder_id) {
        return Err(ApiError::FolderNotFound { folder_id: req.folder_id });
    }
    let mut rows: Vec<PhotoRow> = Vec::new();
    let mut count: usize = 0;
    let mut i: usize = 0;
    while i < store.photos.len()
        invariant
            store.wf(),
            *store == *old(store),
            owner == claims.user_id,
            owns_folder(store@.folders, owner, req.folder_id),
            i <= store.photos.len(),
            rows.len() == i,
            count == picked_count(store@.photos, owner, req.ids@, i as int),
            forall|j: int|
                0 <= j < i ==> #[trigger] rows[j] == moved_rows(
                    store@.photos,
                    owner,
                    req.ids@,
                    req.folder_id,
                )[j],
        decreases store.photos.len() - i,
    {
        proof {
            lemma_picked_count_bound(store@.photos, owner, req.ids@, i as int);
        }
        let row = &store.photos[i];
        let mut copy = row.clone();
        if row.user_id == owner && id_listed(&req.ids, row.id) {
            copy.folder_id = Some(req.folder_id);
            count += 1;
        }
        rows.push(copy);
        i += 1;
    }
    if count == 0 {
        return Err(ApiError::PhotoNotFound);
    }
    proof {
        let moved = moved_rows(store@.photos, owner, req.ids@, req.folder_id);
        assert(rows@ =~= moved);
        assert forall|j: int| 0 <= j < moved.len() implies filing_ok(
            store@.folders,
            #[trigger] moved[j],
        ) by {
            assert(filing_ok(store@.folders, store@.photos[j]));
        }
        lemma_photos_relabelled(store@, moved);
    }
    store.photos = rows;
    Ok(count)
}

/// Holds of the photo rows that a deletion leaves.
pub open spec fn not_picked(owner: i32, ids: Seq<i32>) -> spec_fn(PhotoRow) -> bool {
    |row: PhotoRow| !is_picked(row, owner, ids)
}

/// Holds of the relations that a deletion leaves: those of photos that are
/// not `owner`'s or not among `ids`.
pub open spec fn not_of_picked(photos: Seq<PhotoRow>, owner: i32, ids: Seq<i32>) -> spec_fn(
    PhotoTagRelation,
) -> bool {
    |r: PhotoTagRelation| !(ids.contains(r.photo_id) && owns_photo(photos, owner, r.photo_id))
}

/// The record without `owner`'s photos among `ids` and without their relations.
pub open spec fn photos_deleted(v: StoreView, owner: i32, ids: Seq<i32>) -> StoreView {
    StoreView {
        photos: kept(v.photos, not_picked(owner, ids), v.photos.len() as int),
        relations: kept(
            v.relations,
            not_of_picked(v.photos, owner, ids),
            v.relations.len() as int,
        ),
        ..v
    }
}

/// Of the first `n` photo rows, the image paths of `owner`'s photos among `ids`.
pub open spec fn picked_paths(photos: Seq<PhotoRow>, owner: i32, ids: Seq<i32>, n: int) -> Seq<
    String,
>
    decreases n,
{
    if n <= 0 {
        Seq::empty()
    } else {
        let rest = picked_paths(photos, owner, ids, n - 1);
        if is_picked(photos[n - 1], owner, ids) {
            rest.push(photos[n - 1].image_path)
        } else {
            rest
        }
    }
}

/// The first `n` messages, joined by a comma and a blank.
pub open spec fn joined(messages: Seq<String>, n: int) -> Seq<char>
    decreases n,
{
    if n <= 0 {
        Seq::empty()
    } else if n == 1 {
        messages[0]@
    } else {
        joined(messages, n - 1) + ", "@ + messages[n - 1]@
    }
}

/// The messages, joined by a comma and a blank.
pub fn join_messages(messages: &Vec<String>) -> (r: String)
    ensures
        r@ == joined(messages@, messages.len() as int),
{
    let mut out = String::new();
    let mut i: usize = 0;
    while i < messages.len()
        invariant
            i <= messages.len(),
            out@ == joined(messages@, i as int),
        decreases messages.len() - i,
    {
        if i > 0 {
            out.append(", ");
        } else {
            assert(out@ + messages[0]@ =~= messages[0]@);
        }
        out.append(messages[i].as_str());
        i += 1;
    }
    out
}

/// Taking away photos of one owner, with their relations, keeps the tables consistent.
pub proof fn lemma_photos_deleted(v: StoreView, owner: i32, ids: Seq<i32>)
    requires
        v.wf(),
    ensures
        photos_deleted(v, owner, ids).wf(),
{
    let w = photos_deleted(v, owner, ids);
    let keep_photo = not_picked(owner, ids);
    let keep_relation = not_of_picked(v.photos, owner, ids);
    let np = v.photos.len() as int;
    let nr = v.relations.len() as int;
    assert forall|i: int, j: int| 0 <= i < j < w.photos.len() implies w.photos[i].id
        != w.photos[j].id by {
        lemma_origin(v.photos, keep_photo, np, i);
        lemma_origin(v.photos, keep_photo, np, j);
        lemma_origin_rises(v.photos, keep_photo, np, i, j);
    }
    assert forall|i: int| 0 <= i < w.photos.len() implies (#[trigger] w.photos[i]).id
        < w.next_photo_id && filing_ok(w.folders, w.photos[i]) by {
        lemma_origin(v.photos, keep_photo, np, i);
        let a = origin(v.photos, keep_photo, np, i);
        assert(filing_ok(v.folders, v.photos[a]));
    }
    assert forall|i: int, j: int| 0 <= i < j < w.relations.len() implies w.relations[i]
        != w.relations[j] by {
        lemma_origin(v.relations, keep_relation, nr, i);
        lemma_origin(v.relations, keep_relation, nr, j);
        lemma_origin_rises(v.relations, keep_relation, nr, i, j);
    }
    assert forall|i: int| 0 <= i < w.relations.len() implies relation_ok(
        w.photos,
        w.tags,
        #[trigger] w.relations[i],
    ) by {
        let r = w.relations[i];
        lemma_origin(v.relations, keep_relation, nr, i);
        let k = origin(v.relations, keep_relation, nr, i);
        assert(relation_ok(v.photos, v.tags, v.relations[k]));
        let (a, b) = choose|a: int, b: int|
            0 <= a < v.photos.len() && 0 <= b < v.tags.len() && v.photos[a].id == r.photo_id
                && v.tags[b].id == r.tag_id && v.photos[a].user_id == v.tags[b].user_id;
        assert(keep_photo(v.photos[a]));
        lemma_kept_holds(v.photos, keep_photo, np, a);
        let c = kept(v.photos, keep_photo, a).len() as int;
        assert(w.photos[c].id == r.photo_id && w.photos[c].user_id == w.tags[b].user_id);
    }
}

/// A deletion takes away exactly the owner's photos among those asked for:
/// every other photo stays as it was, and of the relations exactly those of
/// the photos that stay.
pub proof fn lemma_photos_deleted_exactly(v: StoreView, owner: i32, ids: Seq<i32>)
    requires
        v.wf(),
    ensures
        forall|i: int|
            0 <= i < v.photos.len() && !is_picked(#[trigger] v.photos[i], owner, ids)
                ==> photos_deleted(v, owner, ids).photos.contains(v.photos[i]),
        forall|i: int|
            0 <= i < v.photos.len() && is_picked(#[trigger] v.photos[i], owner, ids) ==> !has_photo(
                photos_deleted(v, owner, ids).photos,
                v.photos[i].id,
            ),
        forall|k: int|
            0 <= k < photos_deleted(v, owner, ids).relations.len() ==> has_photo(
                photos_deleted(v, owner, ids).photos,
                (#[trigger] photos_deleted(v, owner, ids).relations[k]).photo_id,
            ),
{
    let w = photos_deleted(v, owner, ids);
    let keep_photo = not_picked(owner, ids);
    let np = v.photos.len() as int;
    lemma_photos_deleted(v, owner, ids);
    assert forall|i: int|
        0 <= i < v.photos.len() && !is_picked(
            #[trigger] v.photos[i],
            owner,
            ids,
        ) implies w.photos.contains(v.photos[i]) by {
        assert(keep_photo(v.photos[i]));
        lemma_kept_holds(v.photos, keep_photo, np, i);
        let c = kept(v.photos, keep_photo, i).len() as int;
        assert(w.photos[c] == v.photos[i]);
    }
    assert forall|i: int|
        0 <= i < v.photos.len() && is_picked(#[trigger] v.photos[i], owner, ids) implies !has_photo(
        w.photos,
        v.photos[i].id,
    ) by {
        if has_photo(w.photos, v.photos[i].id) {
            let c = choose|c: int| 0 <= c < w.photos.len() && w.photos[c].id == v.photos[i].id;
            lemma_origin(v.photos, keep_photo, np, c);
            let a = origin(v.photos, keep_photo, np, c);
            lemma_photo_at(v.photos, a);
            lemma_photo_at(v.photos, i);
        }
    }
    assert forall|k: int| 0 <= k < w.relations.len() implies has_photo(
        w.photos,
        (#[trigger] w.relations[k]).photo_id,
    ) by {
        assert(relation_ok(w.photos, w.tags, w.relations[k]));
    }
}

/// The image paths of the photos that a deletion is about to take away:
/// those of the caller's photos among `req.ids`, in the order of the record.
/// Each of them is to be removed from the blob store before the deletion
/// is recorded.
pub fn photo_image_paths(store: &Store, claims: &Claims, req: &PhotoDeleteRequest) -> (r: Vec<
    String,
>)
    requires
        store.wf(),
    ensures
        r@ == picked_paths(
            store@.photos,
            claims.user_id,
            req.ids@,
            store@.photos.len() as int,
        ),
{
    let owner = claims.user_id;
    let mut out: Vec<String> = Vec::new();
    let mut i: usize = 0;
    while i < store.photos.len()
        invariant
            i <= store.photos.len(),
            out@ == picked_paths(store@.photos, owner, req.ids@, i as int),
        decreases store.photos.len() - i,
    {
        let row = &store.photos[i];
        if row.user_id == owner && id_listed(&req.ids, row.id) {
            out.push(row.image_path.clone());
        }
        i += 1;
    }
    out
}

/// Takes the photos `req.ids` of the holder of `claims` out of the record,
/// with every relation of theirs. `blob_errors` holds what went wrong while
/// their images were removed from the blob store.
///
/// Ids of photos that do not exist or belong to someone else are passed
/// over, and those photos stay as they are. The request is refused, and
/// nothing changes, where it names no id and where none of the photos is
/// the caller's. Where an image could not be removed the photos are taken
/// out all the same, and the failure is reported with every message: the
/// caller then knows that images may be left behind.
pub fn delete_photo(
    store: &mut Store,
    claims: &Claims,
    req: &PhotoDeleteRequest,
    blob_errors: &Vec<String>,
) -> (r: Result<AppSuccess, ApiError>)
    requires
        old(store).wf(),
    ensures
        final(store).wf(),
        ({
            let before = old(store)@;
            let owner = claims.user_id;
            let n = picked_count(before.photos, owner, req.ids@, before.photos.len() as int);
            if req.ids@.len() == 0 {
                r == Err::<AppSuccess, ApiError>(ApiError::EmptyIdList) && final(store)@ == before
            } else if n == 0 {
                r == Err::<AppSuccess, ApiError>(ApiError::PhotoNotFound) && final(store)@
                    == before
            } else {
                &&& final(store)@ == photos_deleted(before, owner, req.ids@)
                &&& blob_errors@.len() == 0 ==> r == Ok::<AppSuccess, ApiError>(
                    AppSuccess::Deleted(FileType::Photo),
                )
                &&& blob_errors@.len() > 0 ==> (r matches Err(ApiError::BlobStore { detail })
                    && detail@ == joined(blob_errors@, blob_errors@.len() as int))
            }
        }),
{
    let owner = claims.user_id;
    if req.ids.len() == 0 {
        return Err(ApiError::EmptyIdList);
    }
    let mut photos: Vec<PhotoRow> = Vec::new();
    let mut count: usize = 0;
    let mut i: usize = 0;
    while i < store.photos.len()
        invariant
            i <= store.photos.len(),
            count == picked_count(store@.photos, owner, req.ids@, i as int),
            photos@ == kept(store@.photos, not_picked(owner, req.ids@), i as int),
        decreases store.photos.len() - i,
    {
        proof {
            lemma_picked_count_bound(store@.photos, owner, req.ids@, i as int);
        }
        let row = &store.photos[i];
        if row.user_id == owner && id_listed(&req.ids, row.id) {
            count += 1;
        } else {
            photos.push(row.clone());
        }
        i += 1;
    }
    if count == 0 {
        return Err(ApiError::PhotoNotFound);
    }
    let mut relations: Vec<PhotoTagRelation> = Vec::new();
    let mut k: usize = 0;
    while k < store.relations.len()
        invariant
            store.wf(),
            k <= store.relations.len(),
            relations@ == kept(
                store@.relations,
                not_of_picked(store@.photos, owner, req.ids@),
                k as int,
            ),
        decreases store.relations.len() - k,
    {
        let r = store.relations[k];
        let gone = id_listed(&req.ids, r.photo_id) && crate::handlers::tags_handler::photo_is_owned(
            &store.photos,
            owner,
            r.photo_id,
        );
        if !gone {
            relations.push(r);
        }
        k += 1;
    }
    proof {
        lemma_photos_deleted(store@, owner, req.ids@);
    }
    store.photos = photos;
    store.relations = relations;
    if blob_errors.len() > 0 {
        Err(ApiError::BlobStore { detail: join_messages(blob_errors) })
    } else {
        Ok(AppSuccess::Deleted(FileType::Photo))
    }
}

/// A photo with the labels that are on it.
#[derive(Debug, PartialEq, Eq)]
pub struct PhotoWithTags {
    pub id: i32,
    pub tags: Vec<Tag>,
}

/// Whether `owner` has label `id`.
pub fn tag_is_owned(tags: &Vec<TagRow>, owner: i32, id: i32) -> (r: bool)
    requires
        forall|a: int, b: int| 0 <= a < b < tags.len() ==> tags[a].id != tags[b].id,
    ensures
        r == owns_tag(tags@, owner, id),
{
    match find_tag(tags, id) {
        Some(i) => {
            proof {
                lemma_tag_at(tags@, i as int);
                if owns_tag(tags@, owner, id) {
                    let k = choose|k: int|
                        0 <= k < tags.len() && tags[k].id == id && tags[k].user_id == owner;
                    lemma_tag_at(tags@, k);
                }
            }
            tags[i].user_id == owner
        },
        None => false,
    }
}

/// The first of the first `n` label ids that is not a label of `owner`.
pub open spec fn first_foreign_tag(tags: Seq<TagRow>, owner: i32, ids: Seq<i32>, n: int) -> Option<
    i32,
>
    decreases n,
{
    if n <= 0 {
        None
    } else {
        match first_foreign_tag(tags, owner, ids, n - 1) {
            Some(id) => Some(id),
            None => if owns_tag(tags, owner, ids[n - 1]) {
                None
            } else {
                Some(ids[n - 1])
            },
        }
    }
}

/// The first of the first `n` photo ids that is not a photo of `owner`.
pub open spec fn first_foreign_photo(photos: Seq<PhotoRow>, owner: i32, ids: Seq<i32>, n: int) -> Option<
    i32,
>
    decreases n,
{
    if n <= 0 {
        None
    } else {
        match first_foreign_photo(photos, owner, ids, n - 1) {
            Some(id) => Some(id),
            None => if owns_photo(photos, owner, ids[n - 1]) {
                None
            } else {
                Some(ids[n - 1])
            },
        }
    }
}

proof fn lemma_first_foreign_tag(tags: Seq<TagRow>, owner: i32, ids: Seq<i32>, n: int, m: int)
    requires
        0 <= n <= m,
    ensures
        first_foreign_tag(tags, owner, ids, n) is Some ==> first_foreign_tag(tags, owner, ids, m)
            == first_foreign_tag(tags, owner, ids, n),
        first_foreign_tag(tags, owner, ids, m) is None ==> forall|k: int|
            0 <= k < m ==> owns_tag(tags, owner, #[trigger] ids[k]),
    decreases m,
{
    if m > 0 {
        if n < m {
            lemma_first_foreign_tag(tags, owner, ids, n, m - 1);
        } else {
            lemma_first_foreign_tag(tags, owner, ids, n - 1, m - 1);
        }
    }
}

proof fn lemma_first_foreign_photo(photos: Seq<PhotoRow>, owner: i32, ids: Seq<i32>, n: int, m: int)
    requires
        0 <= n <= m,
    ensures
        first_foreign_photo(photos, owner, ids, n) is Some ==> first_foreign_photo(
            photos,
            owner,
            ids,
            m,
        ) == first_foreign_photo(photos, owner, ids, n),
        first_foreign_photo(photos, owner, ids, m) is None ==> forall|k: int|
            0 <= k < m ==> owns_photo(photos, owner, #[trigger] ids[k]),
    decreases m,
{
    if m > 0 {
        if n < m {
            lemma_first_foreign_photo(photos, owner, ids, n, m - 1);
        } else {
            lemma_first_foreign_photo(photos, owner, ids, n - 1, m - 1);
        }
    }
}

/// Holds of the relations of every photo but `photo_id`.
pub open spec fn not_of_photo(photo_id: i32) -> spec_fn(PhotoTagRelation) -> bool {
    |r: PhotoTagRelation| r.photo_id != photo_id
}

/// The relations with the first `n` of the labels `tag_ids` put on photo
/// `photo_id`, each once.
pub open spec fn with_tags(
    relations: Seq<PhotoTagRelation>,
    photo_id: i32,
    tag_ids: Seq<i32>,
    n: int,
) -> Seq<PhotoTagRelation>
    decreases n,
{
    if n <= 0 {
        relations
    } else {
        with_relation(
            with_tags(relations, photo_id, tag_ids, n - 1),
            PhotoTagRelation { photo_id, tag_id: tag_ids[n - 1] },
        )
    }
}

/// The relations once photo `photo_id` has lost its labels and got the
/// labels `tag_ids` instead.
pub open spec fn retagged_one(relations: Seq<PhotoTagRelation>, photo_id: i32, tag_ids: Seq<i32>) -> Seq<
    PhotoTagRelation,
> {
    with_tags(
        kept(relations, not_of_photo(photo_id), relations.len() as int),
        photo_id,
        tag_ids,
        tag_ids.len() as int,
    )
}

/// The relations once each of the first `m` of the photos `photo_ids`, one
/// after the other, has lost its labels and got the labels `tag_ids` instead.
pub open spec fn retagged(
    relations: Seq<PhotoTagRelation>,
    photo_ids: Seq<i32>,
    tag_ids: Seq<i32>,
    m: int,
) -> Seq<PhotoTagRelation>
    decreases m,
{
    if m <= 0 {
        relations
    } else {
        retagged_one(retagged(relations, photo_ids, tag_ids, m - 1), photo_ids[m - 1], tag_ids)
    }
}

/// A label as it is reported to `owner` on one of the photos.
pub open spec fn owned_label(owner: i32, label: TagResponse) -> Tag {
    Tag { id: label.id, user_id: Some(owner), tag: label.tag }
}

/// The labels on photo `photo_id` as they are reported to `owner`.
pub open spec fn tag_list(v: StoreView, owner: i32, photo_id: i32) -> Seq<Tag> {
    label_list(v.tags, v.relations, photo_id).map_values(
        |label: TagResponse| owned_label(owner, label),
    )
}

/// Of the first `m` of the photos `photo_ids`, each one once in the order in
/// which it was first named, those that carry a label, with their labels.
pub open spec fn tagged_groups(v: StoreView, owner: i32, photo_ids: Seq<i32>, m: int) -> Seq<
    (i32, Seq<Tag>),
>
    decreases m,
{
    if m <= 0 {
        Seq::empty()
    } else {
        let rest = tagged_groups(v, owner, photo_ids, m - 1);
        let p = photo_ids[m - 1];
        if photo_ids.take(m - 1).contains(p) || tag_list(v, owner, p).len() == 0 {
            rest
        } else {
            rest.push((p, tag_list(v, owner, p)))
        }
    }
}

/// Leaving relations out keeps the tables consistent.
pub proof fn lemma_relations_kept(v: StoreView, keep: spec_fn(PhotoTagRelation) -> bool)
    requires
        v.wf(),
    ensures
        (StoreView { relations: kept(v.relations, keep, v.relations.len() as int), ..v }).wf(),
{
    let nr = v.relations.len() as int;
    let relations = kept(v.relations, keep, nr);
    assert forall|i: int, j: int| 0 <= i < j < relations.len() implies relations[i]
        != relations[j] by {
        lemma_origin(v.relations, keep, nr, i);
        lemma_origin(v.relations, keep, nr, j);
        lemma_origin_rises(v.relations, keep, nr, i, j);
    }
    assert forall|i: int| 0 <= i < relations.len() implies relation_ok(
        v.photos,
        v.tags,
        #[trigger] relations[i],
    ) by {
        lemma_origin(v.relations, keep, nr, i);
        let k = origin(v.relations, keep, nr, i);
        assert(relation_ok(v.photos, v.tags, v.relations[k]));
    }
}

/// Putting labels of one owner on a photo of that owner keeps the tables consistent.
pub proof fn lemma_with_tags_wf(v: StoreView, owner: i32, photo_id: i32, tag_ids: Seq<i32>, n: int)
    requires
        v.wf(),
        0 <= n <= tag_ids.len(),
        owns_photo(v.photos, owner, photo_id),
        forall|k: int| 0 <= k < tag_ids.len() ==> owns_tag(v.tags, owner, #[trigger] tag_ids[k]),
    ensures
        (StoreView { relations: with_tags(v.relations, photo_id, tag_ids, n), ..v }).wf(),
    decreases n,
{
    if n > 0 {
        lemma_with_tags_wf(v, owner, photo_id, tag_ids, n - 1);
        let mid = StoreView { relations: with_tags(v.relations, photo_id, tag_ids, n - 1), ..v };
        lemma_relation_added(mid, owner, PhotoTagRelation { photo_id, tag_id: tag_ids[n - 1] });
    }
}

/// Giving photos of one owner labels of that owner keeps the tables consistent.
pub proof fn lemma_retagged_wf(
    v: StoreView,
    owner: i32,
    photo_ids: Seq<i32>,
    tag_ids: Seq<i32>,
    m: int,
)
    requires
        v.wf(),
        0 <= m <= photo_ids.len(),
        forall|k: int|
            0 <= k < photo_ids.len() ==> owns_photo(v.photos, owner, #[trigger] photo_ids[k]),
        forall|k: int| 0 <= k < tag_ids.len() ==> owns_tag(v.tags, owner, #[trigger] tag_ids[k]),
    ensures
        (StoreView { relations: retagged(v.relations, photo_ids, tag_ids, m), ..v }).wf(),
    decreases m,
{
    if m > 0 {
        lemma_retagged_wf(v, owner, photo_ids, tag_ids, m - 1);
        let mid = StoreView { relations: retagged(v.relations, photo_ids, tag_ids, m - 1), ..v };
        lemma_relations_kept(mid, not_of_photo(photo_ids[m - 1]));
        let bare = StoreView {
            relations: kept(
                mid.relations,
                not_of_photo(photo_ids[m - 1]),
                mid.relations.len() as int,
            ),
            ..mid
        };
        lemma_with_tags_wf(bare, owner, photo_ids[m - 1], tag_ids, tag_ids.len() as int);
    }
}

/// An exact copy of the relations.
fn copy_relations(relations: &Vec<PhotoTagRelation>) -> (r: Vec<PhotoTagRelation>)
    ensures
        r@ == relations@,
{
    let mut out: Vec<PhotoTagRelation> = Vec::new();
    let mut i: usize = 0;
    while i < relations.len()
        invariant
            i <= relations.len(),
            out@ == relations@.take(i as int),
        decreases relations.len() - i,
    {
        out.push(relations[i]);
        assert(relations@.take(i + 1) =~= relations@.take(i as int).push(relations@[i as int]));
        i += 1;
    }
    assert(relations@.take(relations.len() as int) =~= relations@);
    out
}

/// Whether `id` is among the first `m` of `ids`.
fn listed_before(ids: &Vec<i32>, m: usize, id: i32) -> (r: bool)
    requires
        m <= ids.len(),
    ensures
        r == ids@.take(m as int).contains(id),
{
    let mut j: usize = 0;
    while j < m
        invariant
            j <= m <= ids.len(),
            forall|k: int| 0 <= k < j ==> ids[k] != id,
        decreases m - j,
    {
        if ids[j] == id {
            assert(ids@.take(m as int)[j as int] == id);
            return true;
        }
        j += 1;
    }
    false
}

/// The relations once photo `photo_id` has lost its labels and got the
/// labels `tag_ids` instead.
fn retag_one(relations: &Vec<PhotoTagRelation>, photo_id: i32, tag_ids: &Vec<i32>) -> (r: Vec<
    PhotoTagRelation,
>)
    ensures
        r@ == retagged_one(relations@, photo_id, tag_ids@),
{
    let mut out: Vec<PhotoTagRelation> = Vec::new();
    let mut i: usize = 0;
    while i < relations.len()
        invariant
            i <= relations.len(),
            out@ == kept(relations@, not_of_photo(photo_id), i as int),
        decreases relations.len() - i,
    {
        if relations[i].photo_id != photo_id {
            out.push(relations[i]);
        }
        i += 1;
    }
    let ghost bare = out@;
    let mut k: usize = 0;
    while k < tag_ids.len()
        invariant
            k <= tag_ids.len(),
            out@ == with_tags(bare, photo_id, tag_ids@, k as int),
        decreases tag_ids.len() - k,
    {
        let r = PhotoTagRelation { photo_id, tag_id: tag_ids[k] };
        if !relation_listed(&out, r) {
            out.push(r);
        }
        k += 1;
    }
    out
}

/// Gives each of the photos `req.photo_ids` of the holder of `claims`
/// exactly the labels `req.tag_ids`, whatever labels it had, and reports
/// those of the photos that then carry a label, each with its labels.
///
/// All of it happens or none of it: the first label that is not the
/// caller's is refused, else the first photo that is not the caller's,
/// and then nothing changes.
pub fn add_tag_to_photo(store: &mut Store, claims: &Claims, req: &TagAddRequest) -> (r: Result<
    Vec<PhotoWithTags>,
    ApiError,
>)
    requires
        old(store).wf(),
    ensures
        final(store).wf(),
        ({
            let before = old(store)@;
            let owner = claims.user_id;
            match first_foreign_tag(before.tags, owner, req.tag_ids@, req.tag_ids@.len() as int) {
                Some(t) => r == Err::<Vec<PhotoWithTags>, ApiError>(
                    ApiError::ForeignTag { tag_id: t },
                ) && final(store)@ == before,
                None => match first_foreign_photo(
                    before.photos,
                    owner,
                    req.photo_ids@,
                    req.photo_ids@.len() as int,
                ) {
                    Some(p) => r == Err::<Vec<PhotoWithTags>, ApiError>(
                        ApiError::ForeignPhoto { photo_id: p },
                    ) && final(store)@ == before,
                    None => {
                        let groups = tagged_groups(
                            final(store)@,
                            owner,
                            req.photo_ids@,
                            req.photo_ids@.len() as int,
                        );
                        &&& final(store)@ == (StoreView {
                            relations: retagged(
                                before.relations,
                                req.photo_ids@,
                                req.tag_ids@,
                                req.photo_ids@.len() as int,
                            ),
                            ..before
                        })
                        &&& r is Ok
                        &&& r->Ok_0.len() == groups.len()
                        &&& forall|i: int|
                            0 <= i < groups.len() ==> (#[trigger] r->Ok_0[i]).id == groups[i].0
                                && r->Ok_0[i].tags@ == groups[i].1
                    },
                },
            }
        }),
{
    let owner = claims.user_id;
    let mut i: usize = 0;
    while i < req.tag_ids.len()
        invariant
            store.wf(),
            *store == *old(store),
            owner == claims.user_id,
            i <= req.tag_ids.len(),
            first_foreign_tag(store@.tags, owner, req.tag_ids@, i as int) is None,
        decreases req.tag_ids.len() - i,
    {
        if !tag_is_owned(&store.tags, owner, req.tag_ids[i]) {
            proof {
                lemma_first_foreign_tag(
                    store@.tags,
                    owner,
                    req.tag_ids@,
                    i + 1,
                    req.tag_ids@.len() as int,
                );
            }
            return Err(ApiError::ForeignTag { tag_id: req.tag_ids[i] });
        }
        i += 1;
    }
    let mut i: usize = 0;
    while i < req.photo_ids.len()
        invariant
            store.wf(),
            *store == *old(store),
            first_foreign_tag(
                store@.tags,
                claims.user_id,
                req.tag_ids@,
                req.tag_ids@.len() as int,
            ) is None,
            owner == claims.user_id,
            i <= req.photo_ids.len(),
            first_foreign_photo(store@.photos, owner, req.photo_ids@, i as int) is None,
        decreases req.photo_ids.len() - i,
    {
        if !photo_is_owned(&store.photos, owner, req.photo_ids[i]) {
            proof {
                lemma_first_foreign_photo(
                    store@.photos,
                    owner,
                    req.photo_ids@,
                    i + 1,
                    req.photo_ids@.len() as int,
                );
            }
            return Err(ApiError::ForeignPhoto { photo_id: req.photo_ids[i] });
        }
        i += 1;
    }
    let mut relations = copy_relations(&store.relations);
    let mut m: usize = 0;
    while m < req.photo_ids.len()
        invariant
            m <= req.photo_ids.len(),
            relations@ == retagged(store@.relations, req.photo_ids@, req.tag_ids@, m as int),
        decreases req.photo_ids.len() - m,
    {
        relations = retag_one(&relations, req.photo_ids[m], &req.tag_ids);
        m += 1;
    }
    proof {
        lemma_first_foreign_tag(
            store@.tags,
            owner,
            req.tag_ids@,
            req.tag_ids@.len() as int,
            req.tag_ids@.len() as int,
        );
        lemma_first_foreign_photo(
            store@.photos,
            owner,
            req.photo_ids@,
            req.photo_ids@.len() as int,
            req.photo_ids@.len() as int,
        );
        lemma_retagged_wf(
            store@,
            owner,
            req.photo_ids@,
            req.tag_ids@,
            req.photo_ids@.len() as int,
        );
    }
    store.relations = relations;
    let mut out: Vec<PhotoWithTags> = Vec::new();
    let mut m: usize = 0;
    while m < req.photo_ids.len()
        invariant
            store.wf(),
            m <= req.photo_ids.len(),
            out.len() == tagged_groups(store@, owner, req.photo_ids@, m as int).len(),
            forall|i: int|
                0 <= i < out.len() ==> (#[trigger] out[i]).id == tagged_groups(
                    store@,
                    owner,
                    req.photo_ids@,
                    m as int,
                )[i].0 && out[i].tags@ == tagged_groups(
                    store@,
                    owner,
                    req.photo_ids@,
                    m as int,
                )[i].1,
        decreases req.photo_ids.len() - m,
    {
        let p = req.photo_ids[m];
        let seen = listed_before(&req.photo_ids, m, p);
        if !seen {
            let labels = labels_of_photo(store, p);
            if labels.len() > 0 {
                let mut tags: Vec<Tag> = Vec::new();
                let mut k: usize = 0;
                while k < labels.len()
                    invariant
                        k <= labels.len(),
                        tags.len() == k,
                        forall|a: int|
                            0 <= a < k ==> #[trigger] tags[a] == owned_label(owner, labels[a]),
                    decreases labels.len() - k,
                {
                    tags.push(
                        Tag { id: labels[k].id, user_id: Some(owner), tag: labels[k].tag.clone() },
                    );
                    k += 1;
                }
                assert(tags@ =~= tag_list(store@, owner, p));
                out.push(PhotoWithTags { id: p, tags });
            }
        }
        m += 1;
    }
    Ok(out)
}

/// Whether relation `r` puts a label with one of the texts `labels` on photo `photo_id`.
pub open spec fn is_match(
    tags: Seq<TagRow>,
    r: PhotoTagRelation,
    photo_id: i32,
    labels: Seq<Seq<char>>,
) -> bool {
    r.photo_id == photo_id && has_tag(tags, r.tag_id) && labels.contains(
        tags[tag_at(tags, r.tag_id)].tag@,
    )
}

/// Whether one of the first `n` relations puts a label with one of the
/// texts `labels` on photo `photo_id`.
pub open spec fn has_match(v: StoreView, photo_id: i32, labels: Seq<Seq<char>>, n: int) -> bool
    decreases n,
{
    if n <= 0 {
        false
    } else {
        has_match(v, photo_id, labels, n - 1) || is_match(
            v.tags,
            v.relations[n - 1],
            photo_id,
            labels,
        )
    }
}

/// Of the first `n` photo rows, those of `owner` that carry a label with one
/// of the texts `labels`, each once, as a search reports them.
pub open spec fn search_hits(v: StoreView, owner: i32, labels: Seq<Seq<char>>, n: int) -> Seq<
    PhotoResponse,
>
    decreases n,
{
    if n <= 0 {
        Seq::empty()
    } else {
        let rest = search_hits(v, owner, labels, n - 1);
        let row = v.photos[n - 1];
        if row.user_id == owner && has_match(v, row.id, labels, v.relations.len() as int) {
            rest.push(photo_response(row))
        } else {
            rest
        }
    }
}

/// A photo has a match exactly if some relation puts a fitting label on it.
pub proof fn lemma_has_match(v: StoreView, photo_id: i32, labels: Seq<Seq<char>>, n: int)
    requires
        0 <= n <= v.relations.len(),
    ensures
        has_match(v, photo_id, labels, n) <==> exists|k: int|
            0 <= k < n && is_match(v.tags, #[trigger] v.relations[k], photo_id, labels),
    decreases n,
{
    if n > 0 {
        lemma_has_match(v, photo_id, labels, n - 1);
        if has_match(v, photo_id, labels, n - 1) {
            let k = choose|k: int|
                0 <= k < n - 1 && is_match(v.tags, #[trigger] v.relations[k], photo_id, labels);
            assert(0 <= k < n && is_match(v.tags, v.relations[k], photo_id, labels));
        }
    }
}

/// A search for no label finds no photo.
pub proof fn lemma_search_without_labels(v: StoreView, owner: i32, labels: Seq<Seq<char>>, n: int)
    requires
        labels.len() == 0,
        0 <= n <= v.photos.len(),
    ensures
        search_hits(v, owner, labels, n).len() == 0,
    decreases n,
{
    if n > 0 {
        lemma_search_without_labels(v, owner, labels, n - 1);
        lemma_has_match(v, v.photos[n - 1].id, labels, v.relations.len() as int);
    }
}

/// Whether `text` is one of `labels`.
fn label_listed(labels: &Vec<String>, text: &String) -> (r: bool)
    ensures
        r == exists|k: int| 0 <= k < labels.len() && (#[trigger] labels[k])@ == text@,
{
    let mut i: usize = 0;
    while i < labels.len()
        invariant
            i <= labels.len(),
            forall|k: int| 0 <= k < i ==> (#[trigger] labels[k])@ != text@,
        decreases labels.len() - i,
    {
        if labels[i] == *text {
            return true;
        }
        i += 1;
    }
    false
}

/// Whether photo `photo_id` carries a label with one of the texts `labels`.
fn photo_has_match(store: &Store, photo_id: i32, labels: &Vec<String>, Ghost(texts): Ghost<
    Seq<Seq<char>>,
>) -> (r: bool)
    requires
        store.wf(),
        texts.len() == labels.len(),
        forall|k: int| 0 <= k < labels.len() ==> (#[trigger] labels[k])@ == texts[k],
    ensures
        r == has_match(store@, photo_id, texts, store@.relations.len() as int),
{
    let mut i: usize = 0;
    while i < store.relations.len()
        invariant
            store.wf(),
            i <= store.relations.len(),
            texts.len() == labels.len(),
            forall|k: int| 0 <= k < labels.len() ==> (#[trigger] labels[k])@ == texts[k],
            !has_match(store@, photo_id, texts, i as int),
        decreases store.relations.len() - i,
    {
        let r = store.relations[i];
        if r.photo_id == photo_id {
            match find_tag(&store.tags, r.tag_id) {
                Some(k) => {
                    proof {
                        lemma_tag_at(store@.tags, k as int);
                    }
                    let hit = label_listed(labels, &store.tags[k].tag);
                    proof {
                        let text = store@.tags[k as int].tag@;
                        if hit {
                            let w = choose|w: int|
                                0 <= w < labels.len() && (#[trigger] labels[w])@ == text;
                            assert(texts[w] == text);
                        }
                        if texts.contains(text) {
                            let w = choose|w: int| 0 <= w < texts.len() && texts[w] == text;
                            assert(labels[w]@ == text);
                        }
                    }
                    if hit {
                        proof {
                            lemma_match_stays(
                                store@,
                                photo_id,
                                texts,
                                i + 1,
                                store@.relations.len() as int,
                            );
                        }
                        return true;
                    }
                },
                None => {},
            }
        }
        i += 1;
    }
    false
}

proof fn lemma_match_stays(v: StoreView, photo_id: i32, labels: Seq<Seq<char>>, n: int, m: int)
    requires
        0 <= n <= m,
        has_match(v, photo_id, labels, n),
    ensures
        has_match(v, photo_id, labels, m),
    decreases m - n,
{
    if n < m {
        lemma_match_stays(v, photo_id, labels, n, m - 1);
    }
}

/// The photos of the holder of `claims` that carry at least one of the
/// labels that `req.tags` names, each once, in the order of the record.
/// `req.tags` joins the labels by commas; white space around a label does
/// not count. An empty text names no label, and so finds no photo.
pub fn search_photos(store: &Store, claims: &Claims, req: &PhotoSearchRequest) -> (r: PhotoWrapper)
    requires
        store.wf(),
    ensures
        r.data@ == search_hits(
            store@,
            claims.user_id,
            split_labels(req.tags@),
            store@.photos.len() as int,
        ),
        req.tags@.len() == 0 ==> r.data@.len() == 0,
{
    let owner = claims.user_id;
    let labels = split_tag_labels(req.tags.as_str());
    let ghost texts = split_labels(req.tags@);
    let mut data: Vec<PhotoResponse> = Vec::new();
    let mut i: usize = 0;
    while i < store.photos.len()
        invariant
            store.wf(),
            i <= store.photos.len(),
            texts.len() == labels.len(),
            forall|k: int| 0 <= k < labels.len() ==> (#[trigger] labels[k])@ == texts[k],
            data@ == search_hits(store@, owner, texts, i as int),
        decreases store.photos.len() - i,
    {
        let row = &store.photos[i];
        if row.user_id == owner && photo_has_match(store, row.id, &labels, Ghost(texts)) {
            data.push(respond_photo(row));
        }
        i += 1;
    }
    proof {
        if req.tags@.len() == 0 {
            lemma_search_without_labels(store@, owner, texts, store@.photos.len() as int);
        }
    }
    PhotoWrapper { data }
}

} // verus!
