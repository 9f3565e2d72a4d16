use vstd::prelude::*;
use crate::store::{
    FolderRow, PhotoRow, PhotoTagRelation, Store, StoreView, TagRow, filing_ok, find_photo,
    find_tag, lemma_photo_at, lemma_tag_at, owns_folder, parent_ok, relation_ok,
};
use crate::tree::{find_folder, lemma_folder_at};

verus! {

/// The id that follows the first `n` of `ids`: one more than the greatest of
/// them, and never less than 1.
pub open spec fn next_after(ids: Seq<i32>, n: int) -> int
    decreases n,
{
    if n <= 0 {
        1
    } else {
        let rest = next_after(ids, n - 1);
        if ids[n - 1] >= rest {
            ids[n - 1] + 1
        } else {
            rest
        }
    }
}

/// The ids of folder rows, in their order.
pub open spec fn folder_ids(folders: Seq<FolderRow>) -> Seq<i32> {
    Seq::new(folders.len(), |i: int| folders[i].id)
}

/// The ids of photo rows, in their order.
pub open spec fn photo_ids(photos: Seq<PhotoRow>) -> Seq<i32> {
    Seq::new(photos.len(), |i: int| photos[i].id)
}

/// The ids of label rows, in their order.
pub open spec fn tag_ids(tags: Seq<TagRow>) -> Seq<i32> {
    Seq::new(tags.len(), |i: int| tags[i].id)
}

/// The record that holds the given rows and hands out the ids that follow theirs.
pub open spec fn restored(
    folders: Seq<FolderRow>,
    photos: Seq<PhotoRow>,
    tags: Seq<TagRow>,
    relations: Seq<PhotoTagRelation>,
) -> StoreView {
    StoreView {
        folders,
        photos,
        tags,
        relations,
        next_folder_id: next_after(folder_ids(folders), folders.len() as int),
        next_photo_id: next_after(photo_ids(photos), photos.len() as int),
        next_tag_id: next_after(tag_ids(tags), tags.len() as int),
    }
}

proof fn lemma_next_after(ids: Seq<i32>, n: int)
    requires
        0 <= n <= ids.len(),
    ensures
        1 <= next_after(ids, n) <= i32::MAX + 1,
        forall|k: int| 0 <= k < n ==> (#[trigger] ids[k]) < next_after(ids, n),
        next_after(ids, n) > i32::MAX ==> exists|k: int| 0 <= k < n && #[trigger] ids[k] == i32::MAX,
    decreases n,
{
    if n > 0 {
        lemma_next_after(ids, n - 1);
        if next_after(ids, n - 1) > i32::MAX {
            let k = choose|k: int| 0 <= k < n - 1 && #[trigger] ids[k] == i32::MAX;
            assert(0 <= k < n && ids[k] == i32::MAX);
        }
    }
}

/// The id that follows `ids`, where there is one.
fn following_id(ids: &Vec<i32>) -> (r: Option<i32>)
    ensures
        match r {
            Some(next) => next == next_after(ids@, ids.len() as int),
            None => next_after(ids@, ids.len() as int) > i32::MAX,
        },
{
    let mut next: i32 = 1;
    let mut i: usize = 0;
    while i < ids.len()
        invariant
            i <= ids.len(),
            next == next_after(ids@, i as int),
        decreases ids.len() - i,
    {
        if ids[i] >= next {
            if ids[i] == i32::MAX {
                proof {
                    lemma_next_grows(ids@, i + 1, ids.len() as int);
                }
                return None;
            }
            next = ids[i] + 1;
        }
        i += 1;
    }
    Some(next)
}

proof fn lemma_next_grows(ids: Seq<i32>, n: int, m: int)
    requires
        0 <= n <= m <= ids.len(),
    ensures
        next_after(ids, n) <= next_after(ids, m),
    decreases m - n,
{
    if n < m {
        lemma_next_grows(ids, n, m - 1);
    }
}

/// Whether no id occurs twice.
fn all_distinct(ids: &Vec<i32>) -> (r: bool)
    ensures
        r == forall|a: int, b: int| 0 <= a < b < ids.len() ==> ids[a] != ids[b],
{
    let mut j: usize = 0;
    while j < ids.len()
        invariant
            j <= ids.len(),
            forall|a: int, b: int| 0 <= a < b < j ==> ids[a] != ids[b],
        decreases ids.len() - j,
    {
        let mut i: usize = 0;
        while i < j
            invariant
                i <= j < ids.len(),
                forall|a: int| 0 <= a < i ==> ids[a] != ids[j as int],
            decreases j - i,
        {
            if ids[i] == ids[j] {
                return false;
            }
            i += 1;
        }
        j += 1;
    }
    true
}

/// Whether every folder hangs under a folder of its owner that stands
/// before it, or under none.
fn parents_in_order(folders: &Vec<FolderRow>) -> (r: bool)
    requires
        forall|a: int, b: int| 0 <= a < b < folders.len() ==> folders[a].id != folders[b].id,
    ensures
        r == forall|i: int| 0 <= i < folders.len() ==> #[trigger] parent_ok(folders@, i),
{
    let mut i: usize = 0;
    while i < folders.len()
        invariant
            i <= folders.len(),
            forall|a: int, b: int| 0 <= a < b < folders.len() ==> folders[a].id != folders[b].id,
            forall|k: int| 0 <= k < i ==> #[trigger] parent_ok(folders@, k),
        decreases folders.len() - i,
    {
        match folders[i].parent_id {
            Some(p) => {
                let fits = match find_folder(folders, p) {
                    Some(k) => k < i && folders[k].user_id == folders[i].user_id,
                    None => false,
                };
                if !fits {
                    proof {
                        if parent_ok(folders@, i as int) {
                            let k = choose|k: int|
                                0 <= k < i && folders[k].id == p && folders[k].user_id
                                    == folders[i as int].user_id;
                            lemma_folder_at(folders@, k);
                        }
                    }
                    return false;
                }
            },
            None => {},
        }
        i += 1;
    }
    true
}

/// Whether `owner` has folder `id`.
fn folder_owned_by(folders: &Vec<FolderRow>, owner: i32, id: i32) -> (r: bool)
    requires
        forall|a: int, b: int| 0 <= a < b < folders.len() ==> folders[a].id != folders[b].id,
    ensures
        r == owns_folder(folders@, owner, id),
{
    match find_folder(folders, id) {
        Some(i) => {
            proof {
                lemma_folder_at(folders@, i as int);
                if owns_folder(folders@, owner, id) {
                    let k = choose|k: int|
                        0 <= k < folders.len() && folders[k].id == id && folders[k].user_id
                            == owner;
                    lemma_folder_at(folders@, k);
                }
            }
            folders[i].user_id == owner
        },
        None => false,
    }
}

/// Whether every photo lies in a folder of its owner, or in none.
fn photos_filed(folders: &Vec<FolderRow>, photos: &Vec<PhotoRow>) -> (r: bool)
    requires
        forall|a: int, b: int| 0 <= a < b < folders.len() ==> folders[a].id != folders[b].id,
    ensures
        r == forall|i: int| 0 <= i < photos.len() ==> filing_ok(folders@, #[trigger] photos[i]),
{
    let mut i: usize = 0;
    while i < photos.len()
        invariant
            i <= photos.len(),
            forall|a: int, b: int| 0 <= a < b < folders.len() ==> folders[a].id != folders[b].id,
            forall|k: int| 0 <= k < i ==> filing_ok(folders@, #[trigger] photos[k]),
        decreases photos.len() - i,
    {
        match photos[i].folder_id {
            Some(f) => {
                if !folder_owned_by(folders, photos[i].user_id, f) {
                    assert(!filing_ok(folders@, photos[i as int]));
                    return false;
                }
            },
            None => {},
        }
        i += 1;
    }
    true
}

/// Whether no owner has a text twice.
fn labels_distinct(tags: &Vec<TagRow>) -> (r: bool)
    ensures
        r == forall|a: int, b: int|
            0 <= a < b < tags.len() ==> !(tags[a].user_id == tags[b].user_id && tags[a].tag@
                == tags[b].tag@),
{
    let mut j: usize = 0;
    while j < tags.len()
        invariant
            j <= tags.len(),
            forall|a: int, b: int|
                0 <= a < b < j ==> !(tags[a].user_id == tags[b].user_id && tags[a].tag@
                    == tags[b].tag@),
        decreases tags.len() - j,
    {
        let mut i: usize = 0;
        while i < j
            invariant
                i <= j < tags.len(),
                forall|a: int|
                    0 <= a < i ==> !(tags[a].user_id == tags[j as int].user_id && tags[a].tag@
                        == tags[j as int].tag@),
            decreases j - i,
        {
            if tags[i].user_id == tags[j].user_id && tags[i].tag == tags[j].tag {
                return false;
            }
            i += 1;
        }
        j += 1;
    }
    true
}

/// Whether no relation occurs twice.
fn relations_distinct(relations: &Vec<PhotoTagRelation>) -> (r: bool)
    ensures
        r == forall|a: int, b: int| 0 <= a < b < relations.len() ==> relations[a] != relations[b],
{
    let mut j: usize = 0;
    while j < relations.len()
        invariant
            j <= relations.len(),
            forall|a: int, b: int| 0 <= a < b < j ==> relations[a] != relations[b],
        decreases relations.len() - j,
    {
        let mut i: usize = 0;
        while i < j
            invariant
                i <= j < relations.len(),
                forall|a: int| 0 <= a < i ==> relations[a] != relations[j as int],
            decreases j - i,
        {
            if relations[i].photo_id == relations[j].photo_id && relations[i].tag_id
                == relations[j].tag_id {
                return false;
            }
            i += 1;
        }
        j += 1;
    }
    true
}

/// Whether every relation joins a photo and a label of one owner.
fn relations_joined(
    photos: &Vec<PhotoRow>,
    tags: &Vec<TagRow>,
    relations: &Vec<PhotoTagRelation>,
) -> (r: bool)
    requires
        forall|a: int, b: int| 0 <= a < b < photos.len() ==> photos[a].id != photos[b].id,
        forall|a: int, b: int| 0 <= a < b < tags.len() ==> tags[a].id != tags[b].id,
    ensures
        r == forall|i: int|
            0 <= i < relations.len() ==> relation_ok(photos@, tags@, #[trigger] relations[i]),
{
    let mut i: usize = 0;
    while i < relations.len()
        invariant
            i <= relations.len(),
            forall|a: int, b: int| 0 <= a < b < photos.len() ==> photos[a].id != photos[b].id,
            forall|a: int, b: int| 0 <= a < b < tags.len() ==> tags[a].id != tags[b].id,
            forall|k: int| 0 <= k < i ==> relation_ok(photos@, tags@, #[trigger] relations[k]),
        decreases relations.len() - i,
    {
        let r = relations[i];
        let joined = match find_photo(photos, r.photo_id) {
            Some(a) => match find_tag(tags, r.tag_id) {
                Some(b) => {
                    proof {
                        lemma_photo_at(photos@, a as int);
                        lemma_tag_at(tags@, b as int);
                        if relation_ok(photos@, tags@, r) {
                            let (x, y) = choose|x: int, y: int|
                                0 <= x < photos.len() && 0 <= y < tags.len() && photos[x].id
                                    == r.photo_id && tags[y].id == r.tag_id && photos[x].user_id
                                    == tags[y].user_id;
                            lemma_photo_at(photos@, x);
                            lemma_tag_at(tags@, y);
                        }
                    }
                    photos[a].user_id == tags[b].user_id
                },
                None => false,
            },
            None => false,
        };
        if !joined {
            assert(!relation_ok(photos@, tags@, relations[i as int]));
            return false;
        }
        i += 1;
    }
    true
}

/// Whether every id lies below `next`.
fn all_below(ids: &Vec<i32>, next: i32) -> (r: bool)
    ensures
        r == forall|k: int| 0 <= k < ids.len() ==> ids[k] < next,
{
    let mut i: usize = 0;
    while i < ids.len()
        invariant
            i <= ids.len(),
            forall|k: int| 0 <= k < i ==> ids[k] < next,
        decreases ids.len() - i,
    {
        if ids[i] >= next {
            return false;
        }
        i += 1;
    }
    true
}

/// The ids of the folder rows, in their order.
fn ids_of_folders(folders: &Vec<FolderRow>) -> (ids: Vec<i32>)
    ensures
        ids@ == folder_ids(folders@),
{
    let mut ids: Vec<i32> = Vec::new();
    let mut i: usize = 0;
    while i < folders.len()
        invariant
            i <= folders.len(),
            ids@ == folder_ids(folders@).take(i as int),
        decreases folders.len() - i,
    {
        ids.push(folders[i].id);
        assert(folder_ids(folders@).take(i + 1) =~= folder_ids(folders@).take(i as int).push(
            folders[i as int].id,
        ));
        i += 1;
    }
    assert(ids@ =~= folder_ids(folders@));
    ids
}

/// The ids of the photo rows, in their order.
fn ids_of_photos(photos: &Vec<PhotoRow>) -> (ids: Vec<i32>)
    ensures
        ids@ == photo_ids(photos@),
{
    let mut ids: Vec<i32> = Vec::new();
    let mut i: usize = 0;
    while i < photos.len()
        invariant
            i <= photos.len(),
            ids@ == photo_ids(photos@).take(i as int),
        decreases photos.len() - i,
    {
        ids.push(photos[i].id);
        assert(photo_ids(photos@).take(i + 1) =~= photo_ids(photos@).take(i as int).push(
            photos[i as int].id,
        ));
        i += 1;
    }
    assert(ids@ =~= photo_ids(photos@));
    ids
}

/// The ids of the label rows, in their order.
fn ids_of_tags(tags: &Vec<TagRow>) -> (ids: Vec<i32>)
    ensures
        ids@ == tag_ids(tags@),
{
    let mut ids: Vec<i32> = Vec::new();
    let mut i: usize = 0;
    while i < tags.len()
        invariant
            i <= tags.len(),
            ids@ == tag_ids(tags@).take(i as int),
        decreases tags.len() - i,
    {
        ids.push(tags[i].id);
        assert(tag_ids(tags@).take(i + 1) =~= tag_ids(tags@).take(i as int).push(
            tags[i as int].id,
        ));
        i += 1;
    }
    assert(ids@ =~= tag_ids(tags@));
    ids
}

impl Store {
    /// The record that holds the given rows and hands out the given ids
    /// next, where all of it is consistent.
    pub fn restore_with_next(
        folders: Vec<FolderRow>,
        photos: Vec<PhotoRow>,
        tags: Vec<TagRow>,
        relations: Vec<PhotoTagRelation>,
        next_folder_id: i32,
        next_photo_id: i32,
        next_tag_id: i32,
    ) -> (r: Option<Store>)
        ensures
            match r {
                Some(store) => store.wf() && store@ == (StoreView {
                    folders: folders@,
                    photos: photos@,
                    tags: tags@,
                    relations: relations@,
                    next_folder_id: next_folder_id as int,
                    next_photo_id: next_photo_id as int,
                    next_tag_id: next_tag_id as int,
                }),
                None => !(StoreView {
                    folders: folders@,
                    photos: photos@,
                    tags: tags@,
                    relations: relations@,
                    next_folder_id: next_folder_id as int,
                    next_photo_id: next_photo_id as int,
                    next_tag_id: next_tag_id as int,
                }).wf(),
            },
    {
        let ghost v = StoreView {
            folders: folders@,
            photos: photos@,
            tags: tags@,
            relations: relations@,
            next_folder_id: next_folder_id as int,
            next_photo_id: next_photo_id as int,
            next_tag_id: next_tag_id as int,
        };
        let ids = ids_of_folders(&folders);
        if !all_below(&ids, next_folder_id) {
            proof {
                let k = choose|k: int| 0 <= k < ids.len() && !(ids[k] < next_folder_id);
                assert(v.folders[k].id >= next_folder_id);
            }
            return None;
        }
        if !all_distinct(&ids) {
            proof {
                let (a, b) = choose|a: int, b: int| 0 <= a < b < ids.len() && ids[a] == ids[b];
                assert(v.folders[a].id == v.folders[b].id);
            }
            return None;
        }
        assert forall|a: int, b: int| 0 <= a < b < folders.len() implies folders[a].id
            != folders[b].id by {
            assert(ids[a] != ids[b]);
        }
        assert forall|k: int| 0 <= k < folders.len() implies (#[trigger] folders[k]).id
            < next_folder_id by {
            assert(ids[k] < next_folder_id);
        }
        if !parents_in_order(&folders) {
            return None;
        }
        let ids = ids_of_photos(&photos);
        if !all_below(&ids, next_photo_id) {
            proof {
                let k = choose|k: int| 0 <= k < ids.len() && !(ids[k] < next_photo_id);
                assert(v.photos[k].id >= next_photo_id);
            }
            return None;
        }
        if !all_distinct(&ids) {
            proof {
                let (a, b) = choose|a: int, b: int| 0 <= a < b < ids.len() && ids[a] == ids[b];
                assert(v.photos[a].id == v.photos[b].id);
            }
            return None;
        }
        assert forall|a: int, b: int| 0 <= a < b < photos.len() implies photos[a].id
            != photos[b].id by {
            assert(ids[a] != ids[b]);
        }
        assert forall|k: int| 0 <= k < photos.len() implies (#[trigger] photos[k]).id
            < next_photo_id by {
            assert(ids[k] < next_photo_id);
        }
        if !photos_filed(&folders, &photos) {
            return None;
        }
        let ids = ids_of_tags(&tags);
        if !all_below(&ids, next_tag_id) {
            proof {
                let k = choose|k: int| 0 <= k < ids.len() && !(ids[k] < next_tag_id);
                assert(v.tags[k].id >= next_tag_id);
            }
            return None;
        }
        if !all_distinct(&ids) {
            proof {
                let (a, b) = choose|a: int, b: int| 0 <= a < b < ids.len() && ids[a] == ids[b];
                assert(v.tags[a].id == v.tags[b].id);
            }
            return None;
        }
        assert forall|a: int, b: int| 0 <= a < b < tags.len() implies tags[a].id
            != tags[b].id by {
            assert(ids[a] != ids[b]);
        }
        assert forall|k: int| 0 <= k < tags.len() implies (#[trigger] tags[k]).id
            < next_tag_id by {
            assert(ids[k] < next_tag_id);
        }
        if !labels_distinct(&tags) {
            return None;
        }
        if !relations_distinct(&relations) {
            return None;
        }
        if !relations_joined(&photos, &tags, &relations) {
            return None;
        }
        Some(Store { folders, photos, tags, relations, next_folder_id, next_photo_id, next_tag_id })
    }

    /// The record that holds the given rows, where they are consistent; its
    /// next ids follow the greatest ids among them.
    pub fn restore(
        folders: Vec<FolderRow>,
        photos: Vec<PhotoRow>,
        tags: Vec<TagRow>,
        relations: Vec<PhotoTagRelation>,
    ) -> (r: Option<Store>)
        ensures
            match r {
                Some(store) => store.wf() && store@ == restored(
                    folders@,
                    photos@,
                    tags@,
                    relations@,
                ),
                None => !restored(folders@, photos@, tags@, relations@).wf(),
            },
    {
        let ghost v = restored(folders@, photos@, tags@, relations@);
        let ids = ids_of_folders(&folders);
        proof {
            lemma_next_after(ids@, ids.len() as int);
        }
        let next_folder_id = match following_id(&ids) {
            Some(next) => next,
            None => {
                proof {
                    let k = choose|k: int| 0 <= k < ids.len() && #[trigger] ids[k] == i32::MAX;
                    assert(v.folders[k].id == i32::MAX);
                }
                return None;
            },
        };
        let ids = ids_of_photos(&photos);
        proof {
            lemma_next_after(ids@, ids.len() as int);
        }
        let next_photo_id = match following_id(&ids) {
            Some(next) => next,
            None => {
                proof {
                    let k = choose|k: int| 0 <= k < ids.len() && #[trigger] ids[k] == i32::MAX;
                    assert(v.photos[k].id == i32::MAX);
                }
                return None;
            },
        };
        let ids = ids_of_tags(&tags);
        proof {
            lemma_next_after(ids@, ids.len() as int);
        }
        let next_tag_id = match following_id(&ids) {
            Some(next) => next,
            None => {
                proof {
                    let k = choose|k: int| 0 <= k < ids.len() && #[trigger] ids[k] == i32::MAX;
                    assert(v.tags[k].id == i32::MAX);
                }
                return None;
            },
        };
        Store::restore_with_next(
            folders,
            photos,
            tags,
            relations,
            next_folder_id,
            next_photo_id,
            next_tag_id,
        )
    }

    /// The folder rows, in the order in which they came.
    pub fn folders(&self) -> (r: &Vec<FolderRow>)
        ensures
            r@ == self@.folders,
    {
        &self.folders
    }

    /// The photo rows, in the order in which they came.
    pub fn photos(&self) -> (r: &Vec<PhotoRow>)
        ensures
            r@ == self@.photos,
    {
        &self.photos
    }

    /// The label rows, in the order in which they came.
    pub fn tags(&self) -> (r: &Vec<TagRow>)
        ensures
            r@ == self@.tags,
    {
        &self.tags
    }

    /// The relations, in the order in which they came.
    pub fn relations(&self) -> (r: &Vec<PhotoTagRelation>)
        ensures
            r@ == self@.relations,
    {
        &self.relations
    }
}

} // verus!
