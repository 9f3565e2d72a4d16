use vstd::prelude::*;
use crate::handlers::folder_handler::{
    cascade, cascade_paths, doomed_paths, lemma_without_subtree_wf, not_doomed, not_of_doomed,
    outside_subtree, without_subtree,
};
use crate::handlers::photo_handler::{
    is_picked, moved_rows, not_of_photo, picked_count, refiled, retagged, retagged_one, with_tags,
};
use crate::handlers::tags_handler::with_relation;
use crate::handlers::folder_handler::is_doomed;
use crate::rows::{kept, lemma_kept_contains, lemma_kept_holds, lemma_origin, origin};
use crate::store::{
    FolderRow, PhotoRow, PhotoTagRelation, StoreView, filing_ok, folder_at, has_folder,
    has_photo, lemma_photo_at, owns_folder, owns_photo, photo_at,
};
use crate::store::parent_ok;
use crate::tree::{in_subtree, lemma_folder_at, parent_of, place_of};

verus! {

/// After the first `n` labels were put on a photo, a relation is recorded
/// exactly if it was recorded before or joins the photo and one of these labels.
pub proof fn lemma_with_tags_contains(
    relations: Seq<PhotoTagRelation>,
    photo_id: i32,
    tag_ids: Seq<i32>,
    n: int,
    r: PhotoTagRelation,
)
    requires
        0 <= n <= tag_ids.len(),
    ensures
        with_tags(relations, photo_id, tag_ids, n).contains(r) <==> relations.contains(r) || (
        r.photo_id == photo_id && tag_ids.take(n).contains(r.tag_id)),
    decreases n,
{
    if n > 0 {
        lemma_with_tags_contains(relations, photo_id, tag_ids, n - 1, r);
        let before = with_tags(relations, photo_id, tag_ids, n - 1);
        let after = with_tags(relations, photo_id, tag_ids, n);
        let new = PhotoTagRelation { photo_id, tag_id: tag_ids[n - 1] };
        assert(after == with_relation(before, new));
        assert(tag_ids.take(n) =~= tag_ids.take(n - 1).push(tag_ids[n - 1]));
        if before.contains(r) && !before.contains(new) {
            let k = choose|k: int| 0 <= k < before.len() && before[k] == r;
            assert(after[k] == r);
        }
        if !before.contains(new) {
            assert(after[after.len() - 1] == new);
            if after.contains(r) {
                let k = choose|k: int| 0 <= k < after.len() && after[k] == r;
                if k < before.len() {
                    assert(before[k] == r);
                }
            }
        }
        let shorter = tag_ids.take(n - 1);
        let longer = tag_ids.take(n);
        if shorter.contains(r.tag_id) {
            let k = choose|k: int| 0 <= k < shorter.len() && shorter[k] == r.tag_id;
            assert(longer[k] == r.tag_id);
        }
        if longer.contains(r.tag_id) {
            let k = choose|k: int| 0 <= k < longer.len() && longer[k] == r.tag_id;
            if k < n - 1 {
                assert(shorter[k] == r.tag_id);
            }
        }
        assert(longer[n - 1] == tag_ids[n - 1]);
    } else {
        assert(tag_ids.take(0).len() == 0);
    }
}

/// Giving a photo its labels anew replaces what it had: afterwards the
/// photo carries exactly the labels asked for, and every other photo
/// carries what it carried.
pub proof fn lemma_retag_replaces(
    relations: Seq<PhotoTagRelation>,
    photo_id: i32,
    tag_ids: Seq<i32>,
    r: PhotoTagRelation,
)
    ensures
        retagged_one(relations, photo_id, tag_ids).contains(r) <==> if r.photo_id == photo_id {
            tag_ids.contains(r.tag_id)
        } else {
            relations.contains(r)
        },
{
    let bare = kept(relations, not_of_photo(photo_id), relations.len() as int);
    lemma_kept_contains(relations, not_of_photo(photo_id), relations.len() as int, r);
    assert(relations.take(relations.len() as int) =~= relations);
    lemma_with_tags_contains(bare, photo_id, tag_ids, tag_ids.len() as int, r);
    assert(tag_ids.take(tag_ids.len() as int) =~= tag_ids);
}

/// Two requests in a row leave a photo with exactly the labels of the
/// second: the labels of the first do not add to them.
pub proof fn lemma_retag_twice_keeps_last(
    relations: Seq<PhotoTagRelation>,
    photo_id: i32,
    first: Seq<i32>,
    second: Seq<i32>,
)
    ensures
        forall|t: i32|
            retagged_one(retagged_one(relations, photo_id, first), photo_id, second).contains(
                PhotoTagRelation { photo_id, tag_id: t },
            ) <==> #[trigger] second.contains(t),
{
    assert forall|t: i32|
        retagged_one(retagged_one(relations, photo_id, first), photo_id, second).contains(
            PhotoTagRelation { photo_id, tag_id: t },
        ) <==> #[trigger] second.contains(t) by {
        lemma_retag_replaces(
            retagged_one(relations, photo_id, first),
            photo_id,
            second,
            PhotoTagRelation { photo_id, tag_id: t },
        );
    }
}

/// After a request for several photos each of them carries exactly the
/// labels asked for, and every other photo carries what it carried.
pub proof fn lemma_retagged_contains(
    relations: Seq<PhotoTagRelation>,
    photo_ids: Seq<i32>,
    tag_ids: Seq<i32>,
    m: int,
    r: PhotoTagRelation,
)
    requires
        0 <= m <= photo_ids.len(),
    ensures
        retagged(relations, photo_ids, tag_ids, m).contains(r) <==> if photo_ids.take(m).contains(
            r.photo_id,
        ) {
            tag_ids.contains(r.tag_id)
        } else {
            relations.contains(r)
        },
    decreases m,
{
    if m > 0 {
        lemma_retagged_contains(relations, photo_ids, tag_ids, m - 1, r);
        lemma_retag_replaces(
            retagged(relations, photo_ids, tag_ids, m - 1),
            photo_ids[m - 1],
            tag_ids,
            r,
        );
        let shorter = photo_ids.take(m - 1);
        let longer = photo_ids.take(m);
        assert(longer =~= shorter.push(photo_ids[m - 1]));
        assert(longer[m - 1] == photo_ids[m - 1]);
        if shorter.contains(r.photo_id) {
            let k = choose|k: int| 0 <= k < shorter.len() && shorter[k] == r.photo_id;
            assert(longer[k] == r.photo_id);
        }
        if longer.contains(r.photo_id) && r.photo_id != photo_ids[m - 1] {
            let k = choose|k: int| 0 <= k < longer.len() && longer[k] == r.photo_id;
            assert(shorter[k] == r.photo_id);
        }
    } else {
        assert(photo_ids.take(0).len() == 0);
    }
}

/// Where none of the ids is a photo of `owner`, none of the photo rows is
/// picked: a request that names only photos of others finds nothing.
pub proof fn lemma_none_picked(photos: Seq<PhotoRow>, owner: i32, ids: Seq<i32>, n: int)
    requires
        0 <= n <= photos.len(),
        forall|k: int| 0 <= k < ids.len() ==> !owns_photo(photos, owner, #[trigger] ids[k]),
    ensures
        picked_count(photos, owner, ids, n) == 0,
    decreases n,
{
    if n > 0 {
        lemma_none_picked(photos, owner, ids, n - 1);
        if is_picked(photos[n - 1], owner, ids) {
            let k = choose|k: int| 0 <= k < ids.len() && ids[k] == photos[n - 1].id;
            assert(owns_photo(photos, owner, ids[k]));
        }
    }
}

/// Where one of the ids is a photo of `owner`, a photo row is picked: a
/// request that names a photo of the caller finds it.
pub proof fn lemma_some_picked(photos: Seq<PhotoRow>, owner: i32, ids: Seq<i32>, n: int, i: int)
    requires
        0 <= i < n <= photos.len(),
        is_picked(photos[i], owner, ids),
    ensures
        picked_count(photos, owner, ids, n) > 0,
    decreases n,
{
    if i < n - 1 {
        lemma_some_picked(photos, owner, ids, n - 1, i);
    }
}

/// A move changes the folder of the caller's photos among those asked for
/// and nothing else: a photo of someone else stays where it is even if the
/// request names it.
pub proof fn lemma_move_spares_others(
    photos: Seq<PhotoRow>,
    owner: i32,
    ids: Seq<i32>,
    dest: i32,
    i: int,
)
    requires
        0 <= i < photos.len(),
    ensures
        moved_rows(photos, owner, ids, dest).len() == photos.len(),
        photos[i].user_id != owner || !ids.contains(photos[i].id) ==> moved_rows(
            photos,
            owner,
            ids,
            dest,
        )[i] == photos[i],
        photos[i].user_id == owner && ids.contains(photos[i].id) ==> moved_rows(
            photos,
            owner,
            ids,
            dest,
        )[i] == refiled(photos[i], dest),
{
}

/// Deleting one folder of a consistent record takes the folder away with
/// every photo in it and every relation of such a photo, and names the image
/// of each of these photos; what is left is consistent again, so that no
/// relation is left without its photo and no photo without its folder.
pub proof fn lemma_delete_folder_cascades(v: StoreView, owner: i32, folder_id: i32)
    requires
        v.wf(),
        owns_folder(v.folders, owner, folder_id),
    ensures
        cascade(v, owner, seq![folder_id], 1) == Ok::<StoreView, i32>(
            without_subtree(v, folder_id),
        ),
        cascade_paths(v, owner, seq![folder_id], 1) == doomed_paths(
            v.folders,
            v.photos,
            folder_id,
            v.photos.len() as int,
        ),
        without_subtree(v, folder_id).wf(),
        !has_folder(without_subtree(v, folder_id).folders, folder_id),
        forall|i: int|
            0 <= i < v.photos.len() && (#[trigger] v.photos[i]).folder_id == Some(folder_id)
                ==> !has_photo(without_subtree(v, folder_id).photos, v.photos[i].id),
        forall|i: int, k: int|
            0 <= i < v.photos.len() && v.photos[i].folder_id == Some(folder_id) && 0 <= k
                < without_subtree(v, folder_id).relations.len() ==> (
            #[trigger] without_subtree(v, folder_id).relations[k]).photo_id
                != (#[trigger] v.photos[i]).id,
{
    let w = without_subtree(v, folder_id);
    lemma_without_subtree_wf(v, folder_id);
    assert(cascade(v, owner, seq![folder_id], 0) == Ok::<StoreView, i32>(v));
    assert(cascade_paths(v, owner, seq![folder_id], 0) =~= Seq::<String>::empty());
    assert(Seq::<String>::empty() + doomed_paths(
        v.folders,
        v.photos,
        folder_id,
        v.photos.len() as int,
    ) =~= doomed_paths(v.folders, v.photos, folder_id, v.photos.len() as int));
    let f = choose|f: int|
        0 <= f < v.folders.len() && v.folders[f].id == folder_id && v.folders[f].user_id == owner;
    assert(in_subtree(v.folders, folder_id, folder_id));
    if has_folder(w.folders, folder_id) {
        let c = choose|c: int| 0 <= c < w.folders.len() && w.folders[c].id == folder_id;
        lemma_origin(v.folders, outside_subtree(v.folders, folder_id), v.folders.len() as int, c);
    }
    assert forall|i: int|
        0 <= i < v.photos.len() && (#[trigger] v.photos[i]).folder_id == Some(
            folder_id,
        ) implies !has_photo(w.photos, v.photos[i].id) by {
        if has_photo(w.photos, v.photos[i].id) {
            let c = choose|c: int| 0 <= c < w.photos.len() && w.photos[c].id == v.photos[i].id;
            lemma_origin(v.photos, not_doomed(v.folders, folder_id), v.photos.len() as int, c);
            let a = origin(v.photos, not_doomed(v.folders, folder_id), v.photos.len() as int, c);
            lemma_photo_at(v.photos, a);
            lemma_photo_at(v.photos, i);
        }
    }
    assert forall|i: int, k: int|
        0 <= i < v.photos.len() && v.photos[i].folder_id == Some(folder_id) && 0 <= k
            < w.relations.len() implies (#[trigger] w.relations[k]).photo_id
        != (#[trigger] v.photos[i]).id by {
        let keep = not_of_doomed(v.folders, v.photos, folder_id);
        lemma_origin(v.relations, keep, v.relations.len() as int, k);
        lemma_photo_at(v.photos, i);
    }
}

/// A folder that is left when `root` goes was there before, with the same row.
pub proof fn lemma_step_folder_stays(u: StoreView, root: i32, id: i32)
    requires
        u.wf(),
        has_folder(without_subtree(u, root).folders, id),
    ensures
        has_folder(u.folders, id),
        !in_subtree(u.folders, root, id),
        without_subtree(u, root).folders[folder_at(without_subtree(u, root).folders, id)]
            == u.folders[folder_at(u.folders, id)],
{
    let w = without_subtree(u, root);
    let keep = outside_subtree(u.folders, root);
    let c = folder_at(w.folders, id);
    lemma_origin(u.folders, keep, u.folders.len() as int, c);
    let a = origin(u.folders, keep, u.folders.len() as int, c);
    lemma_folder_at(u.folders, a);
}

/// A photo that is left when `root` goes was there before, with the same row.
pub proof fn lemma_step_photo_stays(u: StoreView, root: i32, id: i32)
    requires
        u.wf(),
        has_photo(without_subtree(u, root).photos, id),
    ensures
        has_photo(u.photos, id),
        without_subtree(u, root).photos[photo_at(without_subtree(u, root).photos, id)]
            == u.photos[photo_at(u.photos, id)],
{
    let w = without_subtree(u, root);
    let keep = not_doomed(u.folders, root);
    let c = photo_at(w.photos, id);
    lemma_origin(u.photos, keep, u.photos.len() as int, c);
    let a = origin(u.photos, keep, u.photos.len() as int, c);
    lemma_photo_at(u.photos, a);
}

/// The image of every photo that goes with `root` is among the paths named.
pub proof fn lemma_doomed_path_named(
    folders: Seq<FolderRow>,
    photos: Seq<PhotoRow>,
    root: i32,
    n: int,
    a: int,
)
    requires
        0 <= a < n <= photos.len(),
        is_doomed(folders, root, photos[a]),
    ensures
        doomed_paths(folders, photos, root, n).contains(photos[a].image_path),
    decreases n,
{
    let all = doomed_paths(folders, photos, root, n);
    if a < n - 1 {
        lemma_doomed_path_named(folders, photos, root, n - 1, a);
        let rest = doomed_paths(folders, photos, root, n - 1);
        let k = choose|k: int| 0 <= k < rest.len() && rest[k] == photos[a].image_path;
        assert(all[k] == photos[a].image_path);
    } else {
        assert(all[all.len() - 1] == photos[a].image_path);
    }
}

/// As many paths are named as photos go: each photo is named once.
pub proof fn lemma_doomed_paths_count(
    folders: Seq<FolderRow>,
    photos: Seq<PhotoRow>,
    root: i32,
    n: int,
)
    requires
        0 <= n <= photos.len(),
    ensures
        doomed_paths(folders, photos, root, n).len() + kept(
            photos,
            not_doomed(folders, root),
            n,
        ).len() == n,
    decreases n,
{
    if n > 0 {
        lemma_doomed_paths_count(folders, photos, root, n - 1);
    }
}

/// A photo that goes when `root` goes lay in a folder that goes too, and
/// its image is among the paths named.
pub proof fn lemma_step_photo_goes(u: StoreView, root: i32, id: i32)
    requires
        u.wf(),
        has_photo(u.photos, id),
        !has_photo(without_subtree(u, root).photos, id),
    ensures
        u.photos[photo_at(u.photos, id)].folder_id is Some,
        !has_folder(
            without_subtree(u, root).folders,
            u.photos[photo_at(u.photos, id)].folder_id->Some_0,
        ),
        doomed_paths(u.folders, u.photos, root, u.photos.len() as int).contains(
            u.photos[photo_at(u.photos, id)].image_path,
        ),
{
    let w = without_subtree(u, root);
    let keep = not_doomed(u.folders, root);
    let a = photo_at(u.photos, id);
    assert(0 <= a < u.photos.len() && u.photos[a].id == id);
    if keep(u.photos[a]) {
        lemma_kept_holds(u.photos, keep, u.photos.len() as int, a);
        let c = kept(u.photos, keep, a).len() as int;
        assert(w.photos[c].id == id);
    }
    assert(is_doomed(u.folders, root, u.photos[a]));
    let f = u.photos[a].folder_id->Some_0;
    if has_folder(w.folders, f) {
        lemma_step_folder_stays(u, root, f);
    }
    lemma_doomed_path_named(u.folders, u.photos, root, u.photos.len() as int, a);
}

/// While folders are deleted one after the other the record stays
/// consistent, and the deletion of the folders before was not given up.
pub proof fn lemma_cascade_wf(v: StoreView, owner: i32, ids: Seq<i32>, n: int)
    requires
        v.wf(),
        0 <= n <= ids.len(),
        cascade(v, owner, ids, n) is Ok,
    ensures
        cascade(v, owner, ids, n)->Ok_0.wf(),
        n > 0 ==> cascade(v, owner, ids, n - 1) is Ok && owns_folder(
            cascade(v, owner, ids, n - 1)->Ok_0.folders,
            owner,
            ids[n - 1],
        ) && cascade(v, owner, ids, n)->Ok_0 == without_subtree(
            cascade(v, owner, ids, n - 1)->Ok_0,
            ids[n - 1],
        ),
        cascade(v, owner, ids, n)->Ok_0.tags == v.tags,
        cascade(v, owner, ids, n)->Ok_0.next_folder_id == v.next_folder_id,
        cascade(v, owner, ids, n)->Ok_0.next_photo_id == v.next_photo_id,
        cascade(v, owner, ids, n)->Ok_0.next_tag_id == v.next_tag_id,
    decreases n,
{
    if n > 0 {
        lemma_cascade_wf(v, owner, ids, n - 1);
        lemma_without_subtree_wf(cascade(v, owner, ids, n - 1)->Ok_0, ids[n - 1]);
    }
}

/// A folder that is left after the deletion was there before, with the same row.
pub proof fn lemma_cascade_folder_stays(v: StoreView, owner: i32, ids: Seq<i32>, n: int, id: i32)
    requires
        v.wf(),
        0 <= n <= ids.len(),
        cascade(v, owner, ids, n) is Ok,
        has_folder(cascade(v, owner, ids, n)->Ok_0.folders, id),
    ensures
        has_folder(v.folders, id),
        cascade(v, owner, ids, n)->Ok_0.folders[folder_at(
            cascade(v, owner, ids, n)->Ok_0.folders,
            id,
        )] == v.folders[folder_at(v.folders, id)],
    decreases n,
{
    if n > 0 {
        lemma_cascade_wf(v, owner, ids, n);
        lemma_cascade_wf(v, owner, ids, n - 1);
        let u = cascade(v, owner, ids, n - 1)->Ok_0;
        lemma_step_folder_stays(u, ids[n - 1], id);
        lemma_cascade_folder_stays(v, owner, ids, n - 1, id);
    }
}

/// A photo that is left after the deletion was there before, with the same row.
pub proof fn lemma_cascade_photo_stays(v: StoreView, owner: i32, ids: Seq<i32>, n: int, id: i32)
    requires
        v.wf(),
        0 <= n <= ids.len(),
        cascade(v, owner, ids, n) is Ok,
        has_photo(cascade(v, owner, ids, n)->Ok_0.photos, id),
    ensures
        has_photo(v.photos, id),
        cascade(v, owner, ids, n)->Ok_0.photos[photo_at(
            cascade(v, owner, ids, n)->Ok_0.photos,
            id,
        )] == v.photos[photo_at(v.photos, id)],
    decreases n,
{
    if n > 0 {
        lemma_cascade_wf(v, owner, ids, n);
        lemma_cascade_wf(v, owner, ids, n - 1);
        let u = cascade(v, owner, ids, n - 1)->Ok_0;
        lemma_step_photo_stays(u, ids[n - 1], id);
        lemma_cascade_photo_stays(v, owner, ids, n - 1, id);
    }
}

/// A photo that is gone after the deletion lay in a folder that is gone
/// too, and its image is among the paths named.
pub proof fn lemma_cascade_photo_goes(v: StoreView, owner: i32, ids: Seq<i32>, n: int, id: i32)
    requires
        v.wf(),
        0 <= n <= ids.len(),
        cascade(v, owner, ids, n) is Ok,
        has_photo(v.photos, id),
        !has_photo(cascade(v, owner, ids, n)->Ok_0.photos, id),
    ensures
        v.photos[photo_at(v.photos, id)].folder_id is Some,
        !has_folder(
            cascade(v, owner, ids, n)->Ok_0.folders,
            v.photos[photo_at(v.photos, id)].folder_id->Some_0,
        ),
        cascade_paths(v, owner, ids, n).contains(v.photos[photo_at(v.photos, id)].image_path),
    decreases n,
{
    if n > 0 {
        lemma_cascade_wf(v, owner, ids, n);
        lemma_cascade_wf(v, owner, ids, n - 1);
        let u = cascade(v, owner, ids, n - 1)->Ok_0;
        let w = cascade(v, owner, ids, n)->Ok_0;
        let before = cascade_paths(v, owner, ids, n - 1);
        let now = doomed_paths(u.folders, u.photos, ids[n - 1], u.photos.len() as int);
        let path = v.photos[photo_at(v.photos, id)].image_path;
        let f = v.photos[photo_at(v.photos, id)].folder_id->Some_0;
        assert(cascade_paths(v, owner, ids, n) == before + now);
        if has_photo(u.photos, id) {
            lemma_cascade_photo_stays(v, owner, ids, n - 1, id);
            lemma_step_photo_goes(u, ids[n - 1], id);
            let k = choose|k: int| 0 <= k < now.len() && now[k] == path;
            assert((before + now)[before.len() + k] == path);
        } else {
            lemma_cascade_photo_goes(v, owner, ids, n - 1, id);
            if has_folder(w.folders, f) {
                lemma_step_folder_stays(u, ids[n - 1], f);
            }
            let k = choose|k: int| 0 <= k < before.len() && before[k] == path;
            assert((before + now)[k] == path);
        }
    }
}

/// Each folder that the deletion names was the caller's and is gone.
pub proof fn lemma_cascade_folder_goes(v: StoreView, owner: i32, ids: Seq<i32>, n: int, k: int)
    requires
        v.wf(),
        0 <= k < n <= ids.len(),
        cascade(v, owner, ids, n) is Ok,
    ensures
        owns_folder(v.folders, owner, ids[k]),
        !has_folder(cascade(v, owner, ids, n)->Ok_0.folders, ids[k]),
    decreases n,
{
    lemma_cascade_wf(v, owner, ids, n);
    lemma_cascade_wf(v, owner, ids, n - 1);
    let u = cascade(v, owner, ids, n - 1)->Ok_0;
    let w = cascade(v, owner, ids, n)->Ok_0;
    if has_folder(w.folders, ids[k]) {
        lemma_step_folder_stays(u, ids[n - 1], ids[k]);
    }
    if k < n - 1 {
        lemma_cascade_folder_goes(v, owner, ids, n - 1, k);
    } else {
        let root = ids[n - 1];
        let a = choose|a: int|
            0 <= a < u.folders.len() && u.folders[a].id == root && u.folders[a].user_id == owner;
        lemma_folder_at(u.folders, a);
        lemma_cascade_folder_stays(v, owner, ids, n - 1, root);
        let b = folder_at(v.folders, root);
        assert(0 <= b < v.folders.len() && v.folders[b].id == root);
        assert(v.folders[b].user_id == owner);
        assert(in_subtree(u.folders, root, root));
    }
}

/// As many images are named as photos are gone after the deletion.
pub proof fn lemma_cascade_paths_count(v: StoreView, owner: i32, ids: Seq<i32>, n: int)
    requires
        v.wf(),
        0 <= n <= ids.len(),
        cascade(v, owner, ids, n) is Ok,
    ensures
        cascade_paths(v, owner, ids, n).len() + cascade(v, owner, ids, n)->Ok_0.photos.len()
            == v.photos.len(),
    decreases n,
{
    if n > 0 {
        lemma_cascade_wf(v, owner, ids, n);
        let u = cascade(v, owner, ids, n - 1)->Ok_0;
        lemma_cascade_paths_count(v, owner, ids, n - 1);
        lemma_doomed_paths_count(u.folders, u.photos, ids[n - 1], u.photos.len() as int);
    }
}

/// Deleting several folders at once, where it succeeds, takes every one of
/// them away with every photo in it and every relation of such a photo,
/// and names the image of each photo that goes, once; what is left is
/// consistent, was there before and is as it was. So none of the four
/// kinds goes alone: no relation is left without its photo, no photo
/// without its folder, and no photo goes whose image is not named.
pub proof fn lemma_delete_folders_cascade(v: StoreView, owner: i32, ids: Seq<i32>)
    requires
        v.wf(),
        cascade(v, owner, ids, ids.len() as int) is Ok,
    ensures
        ({
            let w = cascade(v, owner, ids, ids.len() as int)->Ok_0;
            let paths = cascade_paths(v, owner, ids, ids.len() as int);
            &&& w.wf()
            &&& w.tags == v.tags
            &&& forall|k: int|
                0 <= k < ids.len() ==> owns_folder(v.folders, owner, #[trigger] ids[k])
                    && !has_folder(w.folders, ids[k])
            &&& forall|i: int, k: int|
                0 <= i < v.photos.len() && 0 <= k < ids.len() && (
                #[trigger] v.photos[i]).folder_id == Some(#[trigger] ids[k]) ==> !has_photo(
                    w.photos,
                    v.photos[i].id,
                ) && paths.contains(v.photos[i].image_path)
            &&& forall|i: int|
                0 <= i < v.photos.len() && !has_photo(w.photos, (#[trigger] v.photos[i]).id)
                    ==> paths.contains(v.photos[i].image_path)
            &&& forall|j: int|
                0 <= j < w.relations.len() ==> has_photo(
                    w.photos,
                    (#[trigger] w.relations[j]).photo_id,
                )
            &&& forall|j: int|
                0 <= j < w.photos.len() ==> v.photos.contains(#[trigger] w.photos[j])
            &&& forall|j: int|
                0 <= j < w.folders.len() ==> v.folders.contains(#[trigger] w.folders[j])
            &&& paths.len() + w.photos.len() == v.photos.len()
        }),
{
    let n = ids.len() as int;
    let w = cascade(v, owner, ids, n)->Ok_0;
    let paths = cascade_paths(v, owner, ids, n);
    lemma_cascade_wf(v, owner, ids, n);
    lemma_cascade_paths_count(v, owner, ids, n);
    assert forall|k: int| 0 <= k < ids.len() implies owns_folder(
        v.folders,
        owner,
        #[trigger] ids[k],
    ) && !has_folder(w.folders, ids[k]) by {
        lemma_cascade_folder_goes(v, owner, ids, n, k);
    }
    assert forall|i: int|
        0 <= i < v.photos.len() && !has_photo(
            w.photos,
            (#[trigger] v.photos[i]).id,
        ) implies paths.contains(v.photos[i].image_path) by {
        lemma_photo_at(v.photos, i);
        lemma_cascade_photo_goes(v, owner, ids, n, v.photos[i].id);
    }
    assert forall|i: int, k: int|
        0 <= i < v.photos.len() && 0 <= k < ids.len() && (#[trigger] v.photos[i]).folder_id
            == Some(#[trigger] ids[k]) implies !has_photo(w.photos, v.photos[i].id)
        && paths.contains(v.photos[i].image_path) by {
        let id = v.photos[i].id;
        lemma_photo_at(v.photos, i);
        lemma_cascade_folder_goes(v, owner, ids, n, k);
        if has_photo(w.photos, id) {
            lemma_cascade_photo_stays(v, owner, ids, n, id);
            let c = photo_at(w.photos, id);
            assert(0 <= c < w.photos.len() && w.photos[c].id == id);
            assert(filing_ok(w.folders, w.photos[c]));
        }
        lemma_cascade_photo_goes(v, owner, ids, n, id);
    }
    assert forall|j: int| 0 <= j < w.relations.len() implies has_photo(
        w.photos,
        (#[trigger] w.relations[j]).photo_id,
    ) by {
        assert(crate::store::relation_ok(w.photos, w.tags, w.relations[j]));
    }
    assert forall|j: int| 0 <= j < w.photos.len() implies v.photos.contains(
        #[trigger] w.photos[j],
    ) by {
        lemma_photo_at(w.photos, j);
        lemma_cascade_photo_stays(v, owner, ids, n, w.photos[j].id);
        let a = photo_at(v.photos, w.photos[j].id);
        assert(0 <= a < v.photos.len() && v.photos[a].id == w.photos[j].id);
        assert(v.photos[a] == w.photos[j]);
    }
    assert forall|j: int| 0 <= j < w.folders.len() implies v.folders.contains(
        #[trigger] w.folders[j],
    ) by {
        lemma_folder_at(w.folders, j);
        lemma_cascade_folder_stays(v, owner, ids, n, w.folders[j].id);
        let a = folder_at(v.folders, w.folders[j].id);
        assert(0 <= a < v.folders.len() && v.folders[a].id == w.folders[j].id);
        assert(v.folders[a] == w.folders[j]);
    }
}

/// What lies at or below a folder while folders are being deleted lay at
/// or below it before.
pub proof fn lemma_subtree_in_remainder(
    v: StoreView,
    owner: i32,
    ids: Seq<i32>,
    n: int,
    root: i32,
    id: i32,
)
    requires
        v.wf(),
        0 <= n <= ids.len(),
        cascade(v, owner, ids, n) is Ok,
        in_subtree(cascade(v, owner, ids, n)->Ok_0.folders, root, id),
    ensures
        in_subtree(v.folders, root, id),
    decreases place_of(cascade(v, owner, ids, n)->Ok_0.folders, id),
{
    let u = cascade(v, owner, ids, n)->Ok_0;
    lemma_cascade_folder_stays(v, owner, ids, n, id);
    if id != root {
        let p = parent_of(u.folders, id)->Some_0;
        lemma_subtree_in_remainder(v, owner, ids, n, root, p);
        let a = folder_at(v.folders, id);
        assert(0 <= a < v.folders.len() && v.folders[a].id == id);
        assert(parent_ok(v.folders, a));
        let k = choose|k: int|
            0 <= k < a && v.folders[k].id == p && v.folders[k].user_id == v.folders[a].user_id;
        lemma_folder_at(v.folders, k);
        assert(parent_of(v.folders, id) == Some(p));
    }
}

/// Deleting several folders at once succeeds where each of them is the
/// caller's and none of them is another of them or lies below another:
/// then each is still there when its turn comes.
pub proof fn lemma_cascade_succeeds(v: StoreView, owner: i32, ids: Seq<i32>, n: int)
    requires
        v.wf(),
        0 <= n <= ids.len(),
        forall|k: int| 0 <= k < ids.len() ==> owns_folder(v.folders, owner, #[trigger] ids[k]),
        forall|a: int, b: int|
            0 <= a < ids.len() && 0 <= b < ids.len() && a != b ==> !in_subtree(
                v.folders,
                #[trigger] ids[a],
                #[trigger] ids[b],
            ),
    ensures
        cascade(v, owner, ids, n) is Ok,
        forall|k: int|
            n <= k < ids.len() ==> owns_folder(
                cascade(v, owner, ids, n)->Ok_0.folders,
                owner,
                #[trigger] ids[k],
            ),
    decreases n,
{
    if n > 0 {
        lemma_cascade_succeeds(v, owner, ids, n - 1);
        let u = cascade(v, owner, ids, n - 1)->Ok_0;
        let root = ids[n - 1];
        assert(owns_folder(u.folders, owner, ids[n - 1]));
        let w = without_subtree(u, root);
        assert(cascade(v, owner, ids, n) == Ok::<StoreView, i32>(w));
        lemma_cascade_wf(v, owner, ids, n - 1);
        let keep = outside_subtree(u.folders, root);
        assert forall|k: int| n <= k < ids.len() implies owns_folder(
            w.folders,
            owner,
            #[trigger] ids[k],
        ) by {
            assert(owns_folder(u.folders, owner, ids[k]));
            let a = choose|a: int|
                0 <= a < u.folders.len() && u.folders[a].id == ids[k] && u.folders[a].user_id
                    == owner;
            if in_subtree(u.folders, root, ids[k]) {
                lemma_subtree_in_remainder(v, owner, ids, n - 1, root, ids[k]);
                assert(!in_subtree(v.folders, ids[n - 1], ids[k]));
            }
            assert(keep(u.folders[a]));
            lemma_kept_holds(u.folders, keep, u.folders.len() as int, a);
            let c = kept(u.folders, keep, a).len() as int;
            assert(w.folders[c].id == ids[k] && w.folders[c].user_id == owner);
        }
    }
}

} // verus!
