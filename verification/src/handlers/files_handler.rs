use vstd::prelude::*;
use crate::error::ApiError;
use crate::models::breadcrumb::Breadcrumb;
use crate::models::folder::Folder;
use crate::models::photo::Photo;
use crate::models::tag::TagResponse;
use crate::models::user::Claims;
use crate::store::{
    FolderRow, PhotoRow, PhotoTagRelation, Store, StoreView, TagRow, clone_text, find_tag,
    folder_at, has_folder, has_tag, lemma_tag_at, owns_folder, tag_at,
};
use crate::tree::{
    breadcrumb_path, breadcrumbs, find_folder, lemma_folder_at, photo_bytes_under,
    photo_count_under, photo_totals, reported_bytes,
};

verus! {

/// What a folder shows: the folder, the photos in it, the folders directly
/// under it and the path that leads to it.
#[derive(Debug, PartialEq, Eq)]
pub struct FolderContents {
    pub folder: Folder,
    pub photos: Vec<Photo>,
    pub child_folders: Vec<Folder>,
    pub breadcrumbs: Vec<Breadcrumb>,
}

/// The labels of photo `photo_id` among the first `n` relations, in their order.
pub open spec fn label_list_upto(
    tags: Seq<TagRow>,
    relations: Seq<PhotoTagRelation>,
    photo_id: i32,
    n: int,
) -> Seq<TagResponse>
    decreases n,
{
    if n <= 0 {
        Seq::empty()
    } else {
        let rest = label_list_upto(tags, relations, photo_id, n - 1);
        let r = relations[n - 1];
        if r.photo_id == photo_id && has_tag(tags, r.tag_id) {
            rest.push(TagResponse { id: r.tag_id, tag: tags[tag_at(tags, r.tag_id)].tag })
        } else {
            rest
        }
    }
}

/// The labels of photo `photo_id`, in the order in which they were put on it.
pub open spec fn label_list(tags: Seq<TagRow>, relations: Seq<PhotoTagRelation>, photo_id: i32) -> Seq<
    TagResponse,
> {
    label_list_upto(tags, relations, photo_id, relations.len() as int)
}

/// The name of the folder that a photo lies in.
pub open spec fn folder_name_of(folders: Seq<FolderRow>, folder_id: Option<i32>) -> Option<String> {
    match folder_id {
        Some(f) => if has_folder(folders, f) {
            Some(folders[folder_at(folders, f)].name)
        } else {
            None
        },
        None => None,
    }
}

/// Whether `p` reports the photo row `row` of store `v`: its fields, the name
/// of its folder and its labels.
pub open spec fn describes_photo(v: StoreView, row: PhotoRow, p: Photo) -> bool {
    &&& p.id == row.id
    &&& p.user_id == row.user_id
    &&& p.name == row.name
    &&& p.folder_id == row.folder_id
    &&& p.folder_name == folder_name_of(v.folders, row.folder_id)
    &&& p.description == row.description
    &&& p.image_path == row.image_path
    &&& p.uploaded_at == row.uploaded_at
    &&& p.size_in_bytes == row.size_in_bytes
    &&& p.width == row.width
    &&& p.height == row.height
    &&& p.tags@ == label_list(v.tags, v.relations, row.id)
}

/// Whether a photo row is `owner`'s and, where a folder is asked for, lies in it.
pub open spec fn is_listed(row: PhotoRow, owner: i32, folder: Option<i32>) -> bool {
    row.user_id == owner && (folder is None || row.folder_id == folder)
}

/// Of the first `n` photo rows, those that a listing shows.
pub open spec fn listed_rows_upto(photos: Seq<PhotoRow>, owner: i32, folder: Option<i32>, n: int) -> Seq<
    PhotoRow,
>
    decreases n,
{
    if n <= 0 {
        Seq::empty()
    } else {
        let rest = listed_rows_upto(photos, owner, folder, n - 1);
        if is_listed(photos[n - 1], owner, folder) {
            rest.push(photos[n - 1])
        } else {
            rest
        }
    }
}

/// The photo rows that a listing shows: `owner`'s photos, in the order of
/// the rows; where a folder is asked for, only those in it.
pub open spec fn listed_rows(photos: Seq<PhotoRow>, owner: i32, folder: Option<i32>) -> Seq<PhotoRow> {
    listed_rows_upto(photos, owner, folder, photos.len() as int)
}

/// A folder row as it is reported, with the totals given.
pub open spec fn folder_entry(row: FolderRow, count: Option<usize>, size: Option<i64>) -> Folder {
    Folder {
        id: row.id,
        user_id: Some(row.user_id),
        name: row.name,
        description: row.description,
        parent_id: row.parent_id,
        total_photo_count: count,
        total_photo_size: size,
    }
}

/// A folder directly under another, as it is reported: with the number and
/// the size of the owner's photos in it or anywhere below it. The size is
/// left out where it does not fit the field.
pub open spec fn child_entry(v: StoreView, owner: i32, row: FolderRow) -> Folder {
    folder_entry(
        row,
        Some(photo_count_under(v.folders, v.photos, owner, row.id) as usize),
        reported_bytes(photo_bytes_under(v.folders, v.photos, owner, row.id)),
    )
}

/// Of the first `n` folder rows, those of `owner` directly under `parent`, as
/// they are reported.
pub open spec fn child_entries_upto(v: StoreView, owner: i32, parent: i32, n: int) -> Seq<Folder>
    decreases n,
{
    if n <= 0 {
        Seq::empty()
    } else {
        let rest = child_entries_upto(v, owner, parent, n - 1);
        let row = v.folders[n - 1];
        if row.user_id == owner && row.parent_id == Some(parent) {
            rest.push(child_entry(v, owner, row))
        } else {
            rest
        }
    }
}

/// The folders of `owner` directly under `parent`, in the order of the rows,
/// as they are reported.
pub open spec fn child_entries(v: StoreView, owner: i32, parent: i32) -> Seq<Folder> {
    child_entries_upto(v, owner, parent, v.folders.len() as int)
}

/// The labels of one photo, in the order in which they were put on it.
pub fn labels_of_photo(store: &Store, photo_id: i32) -> (r: Vec<TagResponse>)
    requires
        store.wf(),
    ensures
        r@ == label_list(store@.tags, store@.relations, photo_id),
{
    let mut out: Vec<TagResponse> = Vec::new();
    let mut i: usize = 0;
    while i < store.relations.len()
        invariant
            store.wf(),
            i <= store.relations.len(),
            out@ == label_list_upto(store@.tags, store@.relations, photo_id, i as int),
        decreases store.relations.len() - i,
    {
        let r = store.relations[i];
        if r.photo_id == photo_id {
            match find_tag(&store.tags, r.tag_id) {
                Some(k) => {
                    proof {
                        lemma_tag_at(store@.tags, k as int);
                    }
                    out.push(TagResponse { id: r.tag_id, tag: store.tags[k].tag.clone() });
                },
                None => {},
            }
        }
        i += 1;
    }
    out
}

/// One photo row as it is reported.
pub fn photo_entry(store: &Store, row: &PhotoRow) -> (p: Photo)
    requires
        store.wf(),
    ensures
        describes_photo(store@, *row, p),
{
    let folder_name = match row.folder_id {
        Some(f) => match find_folder(&store.folders, f) {
            Some(k) => {
                proof {
                    lemma_folder_at(store@.folders, k as int);
                }
                Some(store.folders[k].name.clone())
            },
            None => None,
        },
        None => None,
    };
    Photo {
        id: row.id,
        user_id: row.user_id,
        name: row.name.clone(),
        folder_id: row.folder_id,
        folder_name,
        description: clone_text(&row.description),
        image_path: row.image_path.clone(),
        uploaded_at: row.uploaded_at,
        size_in_bytes: row.size_in_bytes,
        width: row.width,
        height: row.height,
        tags: labels_of_photo(store, row.id),
    }
}

/// The photos of `owner`, each with its labels; where a folder is given,
/// only those in it.
pub fn list_photos(store: &Store, owner: i32, folder: Option<i32>) -> (r: Vec<Photo>)
    requires
        store.wf(),
    ensures
        r.len() == listed_rows(store@.photos, owner, folder).len(),
        forall|i: int|
            0 <= i < r.len() ==> describes_photo(
                store@,
                listed_rows(store@.photos, owner, folder)[i],
                #[trigger] r[i],
            ),
{
    let mut out: Vec<Photo> = Vec::new();
    let mut i: usize = 0;
    while i < store.photos.len()
        invariant
            store.wf(),
            i <= store.photos.len(),
            out.len() == listed_rows_upto(store@.photos, owner, folder, i as int).len(),
            forall|k: int|
                0 <= k < out.len() ==> describes_photo(
                    store@,
                    listed_rows_upto(store@.photos, owner, folder, i as int)[k],
                    #[trigger] out[k],
                ),
        decreases store.photos.len() - i,
    {
        let row = &store.photos[i];
        let shown = row.user_id == owner && match folder {
            Some(f) => match row.folder_id {
                Some(g) => f == g,
                None => false,
            },
            None => true,
        };
        if shown {
            out.push(photo_entry(store, row));
        }
        i += 1;
    }
    out
}

/// What folder `folder_id` shows to the holder of `claims`: the folder, its
/// photos with their labels, the folders directly under it with the totals
/// of all that lies below each, and the path from the root.
///
/// A folder that does not exist and a folder of someone else are refused alike.
pub fn get_folder_contents(store: &Store, claims: &Claims, folder_id: i32) -> (r: Result<
    FolderContents,
    ApiError,
>)
    requires
        store.wf(),
    ensures
        !owns_folder(store@.folders, claims.user_id, folder_id) ==> r == Err::<
            FolderContents,
            ApiError,
        >(ApiError::FolderNotFound { folder_id }),
        owns_folder(store@.folders, claims.user_id, folder_id) ==> r is Ok && ({
            let c = r->Ok_0;
            let row = store@.folders[folder_at(store@.folders, folder_id)];
            let rows = listed_rows(store@.photos, claims.user_id, Some(folder_id));
            &&& c.folder == folder_entry(row, None, None)
            &&& c.child_folders@ == child_entries(store@, claims.user_id, folder_id)
            &&& c.photos.len() == rows.len()
            &&& forall|i: int|
                0 <= i < rows.len() ==> describes_photo(store@, rows[i], #[trigger] c.photos[i])
            &&& c.breadcrumbs@ == breadcrumb_path(store@.folders, folder_id)
        }),
{
    let owner = claims.user_id;
    let found = find_folder(&store.folders, folder_id);
    let i = match found {
        Some(i) => i,
        None => {
            return Err(ApiError::FolderNotFound { folder_id });
        },
    };
    proof {
        lemma_folder_at(store@.folders, i as int);
    }
    if store.folders[i].user_id != owner {
        return Err(ApiError::FolderNotFound { folder_id });
    }
    let row = &store.folders[i];
    let folder = Folder {
        id: row.id,
        user_id: Some(row.user_id),
        name: row.name.clone(),
        description: clone_text(&row.description),
        parent_id: row.parent_id,
        total_photo_count: None,
        total_photo_size: None,
    };
    let mut child_folders: Vec<Folder> = Vec::new();
    let mut k: usize = 0;
    while k < store.folders.len()
        invariant
            store.wf(),
            k <= store.folders.len(),
            child_folders@ == child_entries_upto(store@, owner, folder_id, k as int),
        decreases store.folders.len() - k,
    {
        let child = &store.folders[k];
        let hangs_here = child.user_id == owner && match child.parent_id {
            Some(p) => p == folder_id,
            None => false,
        };
        if hangs_here {
            let totals = photo_totals(&store.folders, &store.photos, owner, child.id);
            child_folders.push(
                Folder {
                    id: child.id,
                    user_id: Some(child.user_id),
                    name: child.name.clone(),
                    description: clone_text(&child.description),
                    parent_id: child.parent_id,
                    total_photo_count: Some(totals.0),
                    total_photo_size: totals.1,
                },
            );
        }
        k += 1;
    }
    let photos = list_photos(store, owner, Some(folder_id));
    let crumbs = breadcrumbs(&store.folders, folder_id);
    Ok(FolderContents { folder, photos, child_folders, breadcrumbs: crumbs })
}

/// Every photo of the holder of `claims`, each with its labels, in the order
/// of the record.
pub fn get_all_photos(store: &Store, claims: &Claims) -> (r: Vec<Photo>)
    requires
        store.wf(),
    ensures
        r.len() == listed_rows(store@.photos, claims.user_id, None).len(),
        forall|i: int|
            0 <= i < r.len() ==> describes_photo(
                store@,
                listed_rows(store@.photos, claims.user_id, None)[i],
                #[trigger] r[i],
            ),
{
    list_photos(store, claims.user_id, None)
}

} // verus!
