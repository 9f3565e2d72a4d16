use vstd::prelude::*;

verus! {

/// A folder as it is kept: who owns it, and under which folder it hangs.
#[derive(Debug, PartialEq, Eq)]
pub struct FolderRow {
    pub id: i32,
    pub user_id: i32,
    pub name: String,
    pub description: Option<String>,
    pub parent_id: Option<i32>,
}

/// A photo as it is kept. `image_path` is the only handle to the stored
/// image; `uploaded_at` counts the seconds since 1970 (UTC).
#[derive(Debug, PartialEq, Eq)]
pub struct PhotoRow {
    pub id: i32,
    pub user_id: i32,
    pub name: String,
    pub description: Option<String>,
    pub folder_id: Option<i32>,
    pub image_path: String,
    pub uploaded_at: i64,
    pub size_in_bytes: i64,
    pub width: i32,
    pub height: i32,
}

/// A label as it is kept, one per owner and text.
#[derive(Debug, PartialEq, Eq)]
pub struct TagRow {
    pub id: i32,
    pub user_id: i32,
    pub tag: String,
}

/// One label on one photo.
#[derive(Debug, Clone, Copy, PartialEq, Eq, Structural)]
pub struct PhotoTagRelation {
    pub photo_id: i32,
    pub tag_id: i32,
}

/// An exact copy of an optional text.
pub fn clone_text(text: &Option<String>) -> (r: Option<String>)
    ensures
        r == *text,
{
    match text {
        Some(s) => Some(s.clone()),
        None => None,
    }
}

impl Clone for FolderRow {
    fn clone(&self) -> (r: Self)
        ensures
            r == *self,
    {
        FolderRow {
            id: self.id,
            user_id: self.user_id,
            name: self.name.clone(),
            description: clone_text(&self.description),
            parent_id: self.parent_id,
        }
    }
}

impl Clone for PhotoRow {
    fn clone(&self) -> (r: Self)
        ensures
            r == *self,
    {
        PhotoRow {
            id: self.id,
            user_id: self.user_id,
            name: self.name.clone(),
            description: clone_text(&self.description),
            folder_id: self.folder_id,
            image_path: self.image_path.clone(),
            uploaded_at: self.uploaded_at,
            size_in_bytes: self.size_in_bytes,
            width: self.width,
            height: self.height,
        }
    }
}

impl Clone for TagRow {
    fn clone(&self) -> (r: Self)
        ensures
            r == *self,
    {
        TagRow { id: self.id, user_id: self.user_id, tag: self.tag.clone() }
    }
}

/// Whether some folder row carries `id`.
pub open spec fn has_folder(folders: Seq<FolderRow>, id: i32) -> bool {
    exists|i: int| 0 <= i < folders.len() && folders[i].id == id
}

/// The place of the folder row that carries `id`, where there is one.
pub open spec fn folder_at(folders: Seq<FolderRow>, id: i32) -> int {
    choose|i: int| 0 <= i < folders.len() && folders[i].id == id
}

/// Whether `owner` has a folder `id`.
pub open spec fn owns_folder(folders: Seq<FolderRow>, owner: i32, id: i32) -> bool {
    exists|i: int| 0 <= i < folders.len() && folders[i].id == id && folders[i].user_id == owner
}

/// Whether some photo row carries `id`.
pub open spec fn has_photo(photos: Seq<PhotoRow>, id: i32) -> bool {
    exists|i: int| 0 <= i < photos.len() && photos[i].id == id
}

/// Whether `owner` has a photo `id`.
pub open spec fn owns_photo(photos: Seq<PhotoRow>, owner: i32, id: i32) -> bool {
    exists|i: int| 0 <= i < photos.len() && photos[i].id == id && photos[i].user_id == owner
}

/// Whether `owner` has a label `id`.
pub open spec fn owns_tag(tags: Seq<TagRow>, owner: i32, id: i32) -> bool {
    exists|i: int| 0 <= i < tags.len() && tags[i].id == id && tags[i].user_id == owner
}

/// The place of the label row that carries `id`, where there is one.
pub open spec fn tag_at(tags: Seq<TagRow>, id: i32) -> int {
    choose|i: int| 0 <= i < tags.len() && tags[i].id == id
}

/// The folder at place `i` hangs under a folder of the same owner that
/// stands before it, or under none.
pub open spec fn parent_ok(folders: Seq<FolderRow>, i: int) -> bool {
    match folders[i].parent_id {
        None => true,
        Some(p) => exists|k: int|
            0 <= k < i && folders[k].id == p && folders[k].user_id == folders[i].user_id,
    }
}

/// A photo lies in a folder of its owner, or in none.
pub open spec fn filing_ok(folders: Seq<FolderRow>, p: PhotoRow) -> bool {
    match p.folder_id {
        None => true,
        Some(f) => owns_folder(folders, p.user_id, f),
    }
}

/// A relation joins a photo and a label of one owner.
pub open spec fn relation_ok(photos: Seq<PhotoRow>, tags: Seq<TagRow>, r: PhotoTagRelation) -> bool {
    exists|i: int, j: int|
        0 <= i < photos.len() && 0 <= j < tags.len() && photos[i].id == r.photo_id && tags[j].id
            == r.tag_id && photos[i].user_id == tags[j].user_id
}

pub open spec fn folders_wf(folders: Seq<FolderRow>, next: int) -> bool {
    &&& forall|i: int, j: int| 0 <= i < j < folders.len() ==> folders[i].id != folders[j].id
    &&& forall|i: int| 0 <= i < folders.len() ==> (#[trigger] folders[i]).id < next
    &&& forall|i: int| 0 <= i < folders.len() ==> #[trigger] parent_ok(folders, i)
}

pub open spec fn photos_wf(folders: Seq<FolderRow>, photos: Seq<PhotoRow>, next: int) -> bool {
    &&& forall|i: int, j: int| 0 <= i < j < photos.len() ==> photos[i].id != photos[j].id
    &&& forall|i: int| 0 <= i < photos.len() ==> (#[trigger] photos[i]).id < next
    &&& forall|i: int| 0 <= i < photos.len() ==> filing_ok(folders, #[trigger] photos[i])
}

pub open spec fn tags_wf(tags: Seq<TagRow>, next: int) -> bool {
    &&& forall|i: int, j: int| 0 <= i < j < tags.len() ==> tags[i].id != tags[j].id
    &&& forall|i: int| 0 <= i < tags.len() ==> (#[trigger] tags[i]).id < next
    &&& forall|i: int, j: int|
        0 <= i < j < tags.len() ==> !(tags[i].user_id == tags[j].user_id && tags[i].tag@
            == tags[j].tag@)
}

pub open spec fn relations_wf(
    photos: Seq<PhotoRow>,
    tags: Seq<TagRow>,
    relations: Seq<PhotoTagRelation>,
) -> bool {
    &&& forall|i: int, j: int| 0 <= i < j < relations.len() ==> relations[i] != relations[j]
    &&& forall|i: int|
        0 <= i < relations.len() ==> relation_ok(photos, tags, #[trigger] relations[i])
}

/// What a store holds: its four tables, each in the order in which the rows
/// came, and the next id that each table hands out.
pub struct StoreView {
    pub folders: Seq<FolderRow>,
    pub photos: Seq<PhotoRow>,
    pub tags: Seq<TagRow>,
    pub relations: Seq<PhotoTagRelation>,
    pub next_folder_id: int,
    pub next_photo_id: int,
    pub next_tag_id: int,
}

impl StoreView {
    /// The tables are consistent: ids occur once and lie below the next id,
    /// a folder hangs under a folder of its owner whose row stands before
    /// its own, a photo lies in a folder of its owner, a label's text occurs
    /// once per owner, and a relation joins a photo and a label of one owner.
    ///
    /// Rows are added at the end and never moved, so a folder's row always
    /// follows that of the folder it was made under: following the parents
    /// from any folder ends at a root.
    pub open spec fn wf(self) -> bool {
        &&& i32::MIN <= self.next_folder_id <= i32::MAX
        &&& i32::MIN <= self.next_photo_id <= i32::MAX
        &&& i32::MIN <= self.next_tag_id <= i32::MAX
        &&& folders_wf(self.folders, self.next_folder_id)
        &&& photos_wf(self.folders, self.photos, self.next_photo_id)
        &&& tags_wf(self.tags, self.next_tag_id)
        &&& relations_wf(self.photos, self.tags, self.relations)
    }
}

/// The record of every user's folders, photos and labels.
pub struct Store {
    pub(crate) folders: Vec<FolderRow>,
    pub(crate) photos: Vec<PhotoRow>,
    pub(crate) tags: Vec<TagRow>,
    pub(crate) relations: Vec<PhotoTagRelation>,
    pub(crate) next_folder_id: i32,
    pub(crate) next_photo_id: i32,
    pub(crate) next_tag_id: i32,
}

impl View for Store {
    type V = StoreView;

    open(crate) spec fn view(&self) -> StoreView {
        StoreView {
            folders: self.folders@,
            photos: self.photos@,
            tags: self.tags@,
            relations: self.relations@,
            next_folder_id: self.next_folder_id as int,
            next_photo_id: self.next_photo_id as int,
            next_tag_id: self.next_tag_id as int,
        }
    }
}

impl Store {
    /// Whether the tables are consistent (see `StoreView::wf`).
    pub open spec fn wf(&self) -> bool {
        self@.wf()
    }

    /// A store without rows, whose ids start at 1.
    pub fn new() -> (r: Store)
        ensures
            r.wf(),
            r@.folders.len() == 0,
            r@.photos.len() == 0,
            r@.tags.len() == 0,
            r@.relations.len() == 0,
            r@.next_folder_id == 1,
            r@.next_photo_id == 1,
            r@.next_tag_id == 1,
    {
        Store {
            folders: Vec::new(),
            photos: Vec::new(),
            tags: Vec::new(),
            relations: Vec::new(),
            next_folder_id: 1,
            next_photo_id: 1,
            next_tag_id: 1,
        }
    }
}

/// Whether some label row carries `id`.
pub open spec fn has_tag(tags: Seq<TagRow>, id: i32) -> bool {
    exists|i: int| 0 <= i < tags.len() && tags[i].id == id
}

/// The place of the photo row that carries `id`, where there is one.
pub open spec fn photo_at(photos: Seq<PhotoRow>, id: i32) -> int {
    choose|i: int| 0 <= i < photos.len() && photos[i].id == id
}

/// The place of the first photo row that carries `id`.
pub fn find_photo(photos: &Vec<PhotoRow>, id: i32) -> (r: Option<usize>)
    ensures
        match r {
            Some(i) => i < photos.len() && photos[i as int].id == id && forall|j: int|
                0 <= j < i ==> photos[j].id != id,
            None => !has_photo(photos@, id),
        },
{
    let mut i: usize = 0;
    while i < photos.len()
        invariant
            i <= photos.len(),
            forall|j: int| 0 <= j < i ==> photos[j].id != id,
        decreases photos.len() - i,
    {
        if photos[i].id == id {
            return Some(i);
        }
        i += 1;
    }
    None
}

/// The place of the first label row that carries `id`.
pub fn find_tag(tags: &Vec<TagRow>, id: i32) -> (r: Option<usize>)
    ensures
        match r {
            Some(i) => i < tags.len() && tags[i as int].id == id && forall|j: int|
                0 <= j < i ==> tags[j].id != id,
            None => !has_tag(tags@, id),
        },
{
    let mut i: usize = 0;
    while i < tags.len()
        invariant
            i <= tags.len(),
            forall|j: int| 0 <= j < i ==> tags[j].id != id,
        decreases tags.len() - i,
    {
        if tags[i].id == id {
            return Some(i);
        }
        i += 1;
    }
    None
}

/// Where ids occur once, the row found under an id is the row that the
/// contracts speak of.
pub proof fn lemma_photo_at(photos: Seq<PhotoRow>, i: int)
    requires
        0 <= i < photos.len(),
        forall|a: int, b: int| 0 <= a < b < photos.len() ==> photos[a].id != photos[b].id,
    ensures
        has_photo(photos, photos[i].id),
        photo_at(photos, photos[i].id) == i,
{
    let k = photo_at(photos, photos[i].id);
    assert(0 <= k < photos.len() && photos[k].id == photos[i].id);
    if k < i {
        assert(photos[k].id != photos[i].id);
    } else if i < k {
        assert(photos[i].id != photos[k].id);
    }
}

/// Where ids occur once, the row found under an id is the row that the
/// contracts speak of.
pub proof fn lemma_tag_at(tags: Seq<TagRow>, i: int)
    requires
        0 <= i < tags.len(),
        forall|a: int, b: int| 0 <= a < b < tags.len() ==> tags[a].id != tags[b].id,
    ensures
        has_tag(tags, tags[i].id),
        tag_at(tags, tags[i].id) == i,
{
    let k = tag_at(tags, tags[i].id);
    assert(0 <= k < tags.len() && tags[k].id == tags[i].id);
    if k < i {
        assert(tags[k].id != tags[i].id);
    } else if i < k {
        assert(tags[i].id != tags[k].id);
    }
}

impl Store {
    /// An exact copy of the record: what a change is tried on before it is
    /// taken over, or given up.
    pub fn snapshot(&self) -> (r: Store)
        ensures
            r@ == self@,
    {
        let mut folders: Vec<FolderRow> = Vec::new();
        let mut i: usize = 0;
        while i < self.folders.len()
            invariant
                i <= self.folders.len(),
                folders@ == self.folders@.take(i as int),
            decreases self.folders.len() - i,
        {
            folders.push(self.folders[i].clone());
            assert(self.folders@.take(i + 1) =~= self.folders@.take(i as int).push(
                self.folders@[i as int],
            ));
            i += 1;
        }
        assert(self.folders@.take(self.folders.len() as int) =~= self.folders@);
        let mut photos: Vec<PhotoRow> = Vec::new();
        let mut i: usize = 0;
        while i < self.photos.len()
            invariant
                i <= self.photos.len(),
                photos@ == self.photos@.take(i as int),
            decreases self.photos.len() - i,
        {
            photos.push(self.photos[i].clone());
            assert(self.photos@.take(i + 1) =~= self.photos@.take(i as int).push(
                self.photos@[i as int],
            ));
            i += 1;
        }
        assert(self.photos@.take(self.photos.len() as int) =~= self.photos@);
        let mut tags: Vec<TagRow> = Vec::new();
        let mut i: usize = 0;
        while i < self.tags.len()
            invariant
                i <= self.tags.len(),
                tags@ == self.tags@.take(i as int),
            decreases self.tags.len() - i,
        {
            tags.push(self.tags[i].clone());
            assert(self.tags@.take(i + 1) =~= self.tags@.take(i as int).push(self.tags@[i as int]));
            i += 1;
        }
        assert(self.tags@.take(self.tags.len() as int) =~= self.tags@);
        let mut relations: Vec<PhotoTagRelation> = Vec::new();
        let mut i: usize = 0;
        while i < self.relations.len()
            invariant
                i <= self.relations.len(),
                relations@ == self.relations@.take(i as int),
            decreases self.relations.len() - i,
        {
            relations.push(self.relations[i]);
            assert(self.relations@.take(i + 1) =~= self.relations@.take(i as int).push(
                self.relations@[i as int],
            ));
            i += 1;
        }
        assert(self.relations@.take(self.relations.len() as int) =~= self.relations@);
        Store {
            folders,
            photos,
            tags,
            relations,
            next_folder_id: self.next_folder_id,
            next_photo_id: self.next_photo_id,
            next_tag_id: self.next_tag_id,
        }
    }
}

} // verus!
