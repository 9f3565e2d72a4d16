use vstd::prelude::*;
use crate::error::ApiError;
use crate::message::AppError;
use crate::models::tag::{AddTagRequest, Tag, TagResponse};
use crate::models::user::Claims;
use crate::store::{
    PhotoRow, PhotoTagRelation, Store, StoreView, TagRow, find_photo, lemma_photo_at, owns_photo,
    owns_tag, relation_ok,
};

verus! {

/// A label row as it is reported to its owner.
pub open spec fn tag_entry(row: TagRow) -> Tag {
    Tag { id: row.id, user_id: Some(row.user_id), tag: row.tag }
}

/// Of the first `n` label rows, those of `owner`, as they are reported.
pub open spec fn tag_entries_upto(tags: Seq<TagRow>, owner: i32, n: int) -> Seq<Tag>
    decreases n,
{
    if n <= 0 {
        Seq::empty()
    } else {
        let rest = tag_entries_upto(tags, owner, n - 1);
        if tags[n - 1].user_id == owner {
            rest.push(tag_entry(tags[n - 1]))
        } else {
            rest
        }
    }
}

/// The labels of `owner`, in the order in which they were made.
pub open spec fn tag_entries(tags: Seq<TagRow>, owner: i32) -> Seq<Tag> {
    tag_entries_upto(tags, owner, tags.len() as int)
}

/// The labels of the holder of `claims`, in the order in which they were made.
pub fn get_tags(store: &Store, claims: &Claims) -> (r: Vec<Tag>)
    requires
        store.wf(),
    ensures
        r@ == tag_entries(store@.tags, claims.user_id),
{
    let owner = claims.user_id;
    let mut out: Vec<Tag> = Vec::new();
    let mut i: usize = 0;
    while i < store.tags.len()
        invariant
            i <= store.tags.len(),
            out@ == tag_entries_upto(store@.tags, owner, i as int),
        decreases store.tags.len() - i,
    {
        let row = &store.tags[i];
        if row.user_id == owner {
            out.push(Tag { id: row.id, user_id: Some(row.user_id), tag: row.tag.clone() });
        }
        i += 1;
    }
    out
}

/// Whether `owner` has a label with the text `label`.
pub open spec fn has_label(tags: Seq<TagRow>, owner: i32, label: Seq<char>) -> bool {
    exists|i: int| 0 <= i < tags.len() && tags[i].user_id == owner && tags[i].tag@ == label
}

/// The place of `owner`'s label with the text `label`, where there is one.
pub open spec fn label_at(tags: Seq<TagRow>, owner: i32, label: Seq<char>) -> int {
    choose|i: int| 0 <= i < tags.len() && tags[i].user_id == owner && tags[i].tag@ == label
}

/// The id under which `owner` has the text `label` once it has been asked
/// for: that of the label already there, else the next id.
pub open spec fn label_id(v: StoreView, owner: i32, label: Seq<char>) -> int {
    if has_label(v.tags, owner, label) {
        v.tags[label_at(v.tags, owner, label)].id as int
    } else {
        v.next_tag_id
    }
}

/// The record once `owner` has asked for a label with the text of `label`:
/// unchanged where the label is there already or the ids have run out,
/// else with one more label row.
pub open spec fn with_label(v: StoreView, owner: i32, label: String) -> StoreView {
    if has_label(v.tags, owner, label@) || v.next_tag_id == i32::MAX {
        v
    } else {
        StoreView {
            tags: v.tags.push(TagRow { id: v.next_tag_id as i32, user_id: owner, tag: label }),
            next_tag_id: v.next_tag_id + 1,
            ..v
        }
    }
}

/// The place of `owner`'s label with the text of `label`.
pub fn find_label(tags: &Vec<TagRow>, owner: i32, label: &String) -> (r: Option<usize>)
    ensures
        match r {
            Some(i) => i < tags.len() && tags[i as int].user_id == owner && tags[i as int].tag@
                == label@,
            None => !has_label(tags@, owner, label@),
        },
{
    let mut i: usize = 0;
    while i < tags.len()
        invariant
            i <= tags.len(),
            forall|j: int| 0 <= j < i ==> !(tags[j].user_id == owner && tags[j].tag@ == label@),
        decreases tags.len() - i,
    {
        if tags[i].user_id == owner && tags[i].tag == *label {
            return Some(i);
        }
        i += 1;
    }
    None
}

/// Where a text occurs once per owner, the row found under it is the row
/// that the contracts speak of.
pub proof fn lemma_label_at(v: StoreView, i: int)
    requires
        v.wf(),
        0 <= i < v.tags.len(),
    ensures
        has_label(v.tags, v.tags[i].user_id, v.tags[i].tag@),
        label_at(v.tags, v.tags[i].user_id, v.tags[i].tag@) == i,
{
    let k = label_at(v.tags, v.tags[i].user_id, v.tags[i].tag@);
    assert(0 <= k < v.tags.len() && v.tags[k].user_id == v.tags[i].user_id && v.tags[k].tag@
        == v.tags[i].tag@);
    if k < i {
        assert(!(v.tags[k].user_id == v.tags[i].user_id && v.tags[k].tag@ == v.tags[i].tag@));
    } else if i < k {
        assert(!(v.tags[i].user_id == v.tags[k].user_id && v.tags[i].tag@ == v.tags[k].tag@));
    }
}

/// A label that its owner did not have yet, under the next id, keeps the
/// tables consistent.
pub proof fn lemma_label_added(v: StoreView, owner: i32, label: String)
    requires
        v.wf(),
    ensures
        with_label(v, owner, label).wf(),
        with_label(v, owner, label).next_tag_id < i32::MAX || has_label(v.tags, owner, label@)
            ==> has_label(with_label(v, owner, label).tags, owner, label@),
        forall|o: i32, id: i32|
            owns_tag(v.tags, o, id) ==> owns_tag(with_label(v, owner, label).tags, o, id),
{
    let w = with_label(v, owner, label);
    if !(has_label(v.tags, owner, label@) || v.next_tag_id == i32::MAX) {
        assert forall|i: int, j: int| 0 <= i < j < w.tags.len() implies w.tags[i].id
            != w.tags[j].id by {
            if j == v.tags.len() {
                assert(v.tags[i].id < v.next_tag_id);
            }
        }
        assert forall|i: int| 0 <= i < v.relations.len() implies relation_ok(
            v.photos,
            w.tags,
            #[trigger] v.relations[i],
        ) by {
            let r = v.relations[i];
            assert(relation_ok(v.photos, v.tags, r));
            let (a, b) = choose|a: int, b: int|
                0 <= a < v.photos.len() && 0 <= b < v.tags.len() && v.photos[a].id == r.photo_id
                    && v.tags[b].id == r.tag_id && v.photos[a].user_id == v.tags[b].user_id;
            assert(w.tags[b].id == r.tag_id && v.photos[a].user_id == w.tags[b].user_id);
        }
        assert(w.tags[v.tags.len() as int].tag@ == label@);
        assert forall|i: int, j: int| 0 <= i < j < w.tags.len() implies !(w.tags[i].user_id
            == w.tags[j].user_id && w.tags[i].tag@ == w.tags[j].tag@) by {
            if j == v.tags.len() {
                assert(!(v.tags[i].user_id == owner && v.tags[i].tag@ == label@));
            }
        }
        assert forall|o: i32, id: i32| owns_tag(v.tags, o, id) implies owns_tag(w.tags, o, id) by {
            let k = choose|k: int|
                0 <= k < v.tags.len() && v.tags[k].id == id && v.tags[k].user_id == o;
            assert(w.tags[k].id == id && w.tags[k].user_id == o);
        }
    }
}

/// The id of `owner`'s label with the text of `label`: that of the label
/// already there, or that of a label made now.
///
/// Only when a label has to be made and the ids have run out is the request
/// refused; then nothing changes.
pub fn add_or_reuse_tag(store: &mut Store, owner: i32, label: &String) -> (r: Result<i32, ApiError>)
    requires
        old(store).wf(),
    ensures
        final(store).wf(),
        final(store)@ == with_label(old(store)@, owner, *label),
        !has_label(old(store)@.tags, owner, label@) && old(store)@.next_tag_id == i32::MAX ==> r
            == Err::<i32, ApiError>(ApiError::Internal(AppError::InternalServerError)),
        has_label(old(store)@.tags, owner, label@) || old(store)@.next_tag_id < i32::MAX ==> r
            == Ok::<i32, ApiError>(label_id(old(store)@, owner, label@) as i32),
{
    proof {
        lemma_label_added(store@, owner, *label);
    }
    match find_label(&store.tags, owner, label) {
        Some(i) => {
            proof {
                lemma_label_at(store@, i as int);
            }
            Ok(store.tags[i].id)
        },
        None => {
            if store.next_tag_id == i32::MAX {
                return Err(ApiError::Internal(AppError::InternalServerError));
            }
            let id = store.next_tag_id;
            store.tags.push(TagRow { id, user_id: owner, tag: label.clone() });
            store.next_tag_id = id + 1;
            Ok(id)
        },
    }
}

/// Asking twice for the same label gives the same id both times, and the
/// second request changes nothing: the owner has the text exactly once.
pub proof fn lemma_add_or_reuse_tag_twice(v: StoreView, owner: i32, label: String)
    requires
        v.wf(),
        has_label(v.tags, owner, label@) || v.next_tag_id < i32::MAX,
    ensures
        ({
            let once = with_label(v, owner, label);
            &&& label_id(once, owner, label@) == label_id(v, owner, label@)
            &&& with_label(once, owner, label) == once
            &&& has_label(once.tags, owner, label@)
            &&& forall|i: int, j: int|
                0 <= i < once.tags.len() && 0 <= j < once.tags.len() && once.tags[i].user_id
                    == owner && once.tags[i].tag@ == label@ && once.tags[j].user_id == owner
                    && once.tags[j].tag@ == label@ ==> i == j
        }),
{
    let once = with_label(v, owner, label);
    lemma_label_added(v, owner, label);
    if !has_label(v.tags, owner, label@) {
        let n = v.tags.len() as int;
        assert(once.tags[n].user_id == owner && once.tags[n].tag@ == label@);
        lemma_label_at(once, n);
    }
    assert forall|i: int, j: int|
        0 <= i < once.tags.len() && 0 <= j < once.tags.len() && once.tags[i].user_id == owner
            && once.tags[i].tag@ == label@ && once.tags[j].user_id == owner && once.tags[j].tag@
            == label@ implies i == j by {
        lemma_label_at(once, i);
        lemma_label_at(once, j);
    }
}

/// The relations with `r` among them: as they are where `r` is there
/// already, else with `r` at the end.
pub open spec fn with_relation(relations: Seq<PhotoTagRelation>, r: PhotoTagRelation) -> Seq<
    PhotoTagRelation,
> {
    if relations.contains(r) {
        relations
    } else {
        relations.push(r)
    }
}

/// Whether the relation `r` is recorded.
pub fn relation_listed(relations: &Vec<PhotoTagRelation>, r: PhotoTagRelation) -> (b: bool)
    ensures
        b == relations@.contains(r),
{
    let mut i: usize = 0;
    while i < relations.len()
        invariant
            i <= relations.len(),
            forall|j: int| 0 <= j < i ==> relations[j] != r,
        decreases relations.len() - i,
    {
        if relations[i].photo_id == r.photo_id && relations[i].tag_id == r.tag_id {
            return true;
        }
        i += 1;
    }
    false
}

/// A relation between a photo and a label of one owner keeps the tables consistent.
pub proof fn lemma_relation_added(v: StoreView, owner: i32, r: PhotoTagRelation)
    requires
        v.wf(),
        owns_photo(v.photos, owner, r.photo_id),
        owns_tag(v.tags, owner, r.tag_id),
    ensures
        (StoreView { relations: with_relation(v.relations, r), ..v }).wf(),
{
    let a = choose|a: int|
        0 <= a < v.photos.len() && v.photos[a].id == r.photo_id && v.photos[a].user_id == owner;
    let b = choose|b: int|
        0 <= b < v.tags.len() && v.tags[b].id == r.tag_id && v.tags[b].user_id == owner;
    assert(v.photos[a].user_id == v.tags[b].user_id);
    assert(relation_ok(v.photos, v.tags, r));
}

/// Whether `owner` has photo `id`.
pub fn photo_is_owned(photos: &Vec<PhotoRow>, owner: i32, id: i32) -> (r: bool)
    requires
        forall|a: int, b: int| 0 <= a < b < photos.len() ==> photos[a].id != photos[b].id,
    ensures
        r == owns_photo(photos@, owner, id),
{
    match find_photo(photos, id) {
        Some(i) => {
            proof {
                lemma_photo_at(photos@, i as int);
                if owns_photo(photos@, owner, id) {
                    let k = choose|k: int|
                        0 <= k < photos.len() && photos[k].id == id && photos[k].user_id == owner;
                    lemma_photo_at(photos@, k);
                }
            }
            photos[i].user_id == owner
        },
        None => false,
    }
}

/// Puts the label with the text `req.tag` on photo `req.photo_id` of the
/// holder of `claims`, making the label where the caller has none with that
/// text, and reports the label.
///
/// A photo that does not exist or belongs to someone else is refused, and so
/// is a label that would have to be made when the ids have run out. A
/// refusal changes nothing. A label that is on the photo already stays
/// there once.
pub fn add_tag(store: &mut Store, claims: &Claims, req: &AddTagRequest) -> (r: Result<
    TagResponse,
    ApiError,
>)
    requires
        old(store).wf(),
    ensures
        final(store).wf(),
        ({
            let before = old(store)@;
            let owner = claims.user_id;
            if !owns_photo(before.photos, owner, req.photo_id) {
                r == Err::<TagResponse, ApiError>(
                    ApiError::ForeignPhoto { photo_id: req.photo_id },
                ) && final(store)@ == before
            } else if !has_label(before.tags, owner, req.tag@) && before.next_tag_id == i32::MAX {
                r == Err::<TagResponse, ApiError>(ApiError::Internal(AppError::InternalServerError))
                    && final(store)@ == before
            } else {
                let id = label_id(before, owner, req.tag@) as i32;
                let labelled = with_label(before, owner, req.tag);
                &&& r == Ok::<TagResponse, ApiError>(TagResponse { id, tag: req.tag })
                &&& final(store)@ == (StoreView {
                    relations: with_relation(
                        before.relations,
                        PhotoTagRelation { photo_id: req.photo_id, tag_id: id },
                    ),
                    ..labelled
                })
            }
        }),
{
    let owner = claims.user_id;
    if !photo_is_owned(&store.photos, owner, req.photo_id) {
        return Err(ApiError::ForeignPhoto { photo_id: req.photo_id });
    }
    let ghost before = store@;
    let id = match add_or_reuse_tag(store, owner, &req.tag) {
        Ok(id) => id,
        Err(e) => {
            return Err(e);
        },
    };
    let relation = PhotoTagRelation { photo_id: req.photo_id, tag_id: id };
    proof {
        lemma_label_added(before, owner, req.tag);
        if has_label(before.tags, owner, req.tag@) {
            let k = label_at(before.tags, owner, req.tag@);
            assert(store@.tags[k].id == id && store@.tags[k].user_id == owner);
        } else {
            let k = before.tags.len() as int;
            assert(store@.tags[k].id == id && store@.tags[k].user_id == owner);
        }
        assert(owns_tag(store@.tags, owner, id));
        lemma_relation_added(store@, owner, relation);
    }
    if !relation_listed(&store.relations, relation) {
        store.relations.push(relation);
    }
    Ok(TagResponse { id, tag: req.tag.clone() })
}

} // verus!
