use vstd::prelude::*;
use crate::models::breadcrumb::Breadcrumb;
use crate::store::{FolderRow, PhotoRow, folder_at, folders_wf, has_folder, owns_folder, parent_ok};

verus! {

/// How far folder `id` stands from the start of the rows, counted from 1;
/// 0 where there is no such folder.
pub open spec fn place_of(folders: Seq<FolderRow>, id: i32) -> int {
    if has_folder(folders, id) {
        folder_at(folders, id) + 1
    } else {
        0
    }
}

/// The folder under which folder `id` hangs, where that folder stands before it.
pub open spec fn parent_of(folders: Seq<FolderRow>, id: i32) -> Option<i32> {
    if has_folder(folders, id) {
        match folders[folder_at(folders, id)].parent_id {
            Some(p) => if has_folder(folders, p) && folder_at(folders, p) < folder_at(
                folders,
                id,
            ) {
                Some(p)
            } else {
                None
            },
            None => None,
        }
    } else {
        None
    }
}

/// The step that folder `id` adds to a path.
pub open spec fn crumb_of(folders: Seq<FolderRow>, id: i32) -> Breadcrumb {
    Breadcrumb { id, name: folders[folder_at(folders, id)].name }
}

/// The path from a root down to folder `id`, the root first; empty where
/// there is no such folder.
pub open spec fn breadcrumb_path(folders: Seq<FolderRow>, id: i32) -> Seq<Breadcrumb>
    decreases place_of(folders, id),
{
    if !has_folder(folders, id) {
        Seq::empty()
    } else {
        match parent_of(folders, id) {
            Some(p) => breadcrumb_path(folders, p).push(crumb_of(folders, id)),
            None => seq![crumb_of(folders, id)],
        }
    }
}

/// Whether folder `id` is `root` itself or lies anywhere below it.
pub open spec fn in_subtree(folders: Seq<FolderRow>, root: i32, id: i32) -> bool
    decreases place_of(folders, id),
{
    has_folder(folders, id) && (id == root || match parent_of(folders, id) {
        Some(p) => in_subtree(folders, root, p),
        None => false,
    })
}

/// The place of the first folder row that carries `id`.
pub fn find_folder(folders: &Vec<FolderRow>, id: i32) -> (r: Option<usize>)
    ensures
        match r {
            Some(i) => i < folders.len() && folders[i as int].id == id && forall|j: int|
                0 <= j < i ==> folders[j].id != id,
            None => !has_folder(folders@, id),
        },
{
    let mut i: usize = 0;
    while i < folders.len()
        invariant
            i <= folders.len(),
            forall|j: int| 0 <= j < i ==> folders[j].id != id,
        decreases folders.len() - i,
    {
        if folders[i].id == id {
            return Some(i);
        }
        i += 1;
    }
    None
}

/// Where ids occur once, the row found under an id is the row that the
/// contracts speak of.
pub proof fn lemma_folder_at(folders: Seq<FolderRow>, i: int)
    requires
        0 <= i < folders.len(),
        forall|a: int, b: int| 0 <= a < b < folders.len() ==> folders[a].id != folders[b].id,
    ensures
        has_folder(folders, folders[i].id),
        folder_at(folders, folders[i].id) == i,
{
    let k = folder_at(folders, folders[i].id);
    assert(0 <= k < folders.len() && folders[k].id == folders[i].id);
    if k < i {
        assert(folders[k].id != folders[i].id);
    } else if i < k {
        assert(folders[i].id != folders[k].id);
    }
}

/// The path from a root down to folder `id`, the root first. It is found by
/// walking up from the folder and turning the steps round.
pub fn breadcrumbs(folders: &Vec<FolderRow>, id: i32) -> (r: Vec<Breadcrumb>)
    requires
        forall|a: int, b: int| 0 <= a < b < folders.len() ==> folders[a].id != folders[b].id,
    ensures
        r@ == breadcrumb_path(folders@, id),
{
    let mut upward: Vec<Breadcrumb> = Vec::new();
    let mut cur: i32 = id;
    let mut done = false;
    while !done
        invariant
            forall|a: int, b: int| 0 <= a < b < folders.len() ==> folders[a].id != folders[b].id,
            !done ==> breadcrumb_path(folders@, id) == breadcrumb_path(folders@, cur)
                + upward@.reverse(),
            done ==> breadcrumb_path(folders@, id) == upward@.reverse(),
        decreases (if done { 0int } else { 1int }), place_of(folders@, cur),
    {
        match find_folder(folders, cur) {
            None => {
                assert(breadcrumb_path(folders@, cur) + upward@.reverse() =~= upward@.reverse());
                done = true;
            },
            Some(i) => {
                proof {
                    lemma_folder_at(folders@, i as int);
                }
                let ghost before = upward@;
                upward.push(Breadcrumb { id: cur, name: folders[i].name.clone() });
                assert(upward@.reverse() =~= seq![crumb_of(folders@, cur)] + before.reverse());
                match folders[i].parent_id {
                    Some(p) => {
                        let above = match find_folder(folders, p) {
                            Some(k) => {
                                proof {
                                    lemma_folder_at(folders@, k as int);
                                }
                                k < i
                            },
                            None => false,
                        };
                        if above {
                            assert(breadcrumb_path(folders@, cur) + before.reverse()
                                =~= breadcrumb_path(folders@, p) + upward@.reverse());
                            cur = p;
                        } else {
                            assert(breadcrumb_path(folders@, cur) + before.reverse()
                                =~= upward@.reverse());
                            done = true;
                        }
                    },
                    None => {
                        assert(breadcrumb_path(folders@, cur) + before.reverse()
                            =~= upward@.reverse());
                        done = true;
                    },
                }
            },
        }
    }
    let mut out: Vec<Breadcrumb> = Vec::new();
    let mut k: usize = upward.len();
    while k > 0
        invariant
            k <= upward.len(),
            out.len() == upward.len() - k,
            forall|j: int| 0 <= j < out.len() ==> out[j] == upward[upward.len() - 1 - j],
        decreases k,
    {
        k -= 1;
        out.push(Breadcrumb { id: upward[k].id, name: upward[k].name.clone() });
    }
    assert(out@ =~= upward@.reverse());
    out
}

/// The path to a folder of a consistent store starts at a root and ends at
/// the folder; each step hangs under the step before it, so the steps come
/// in the order of their depth, and the path of a step is the path up to it;
/// every step belongs to the folder's owner.
pub proof fn lemma_breadcrumbs_root_first(folders: Seq<FolderRow>, next: int, owner: i32, id: i32)
    requires
        folders_wf(folders, next),
        owns_folder(folders, owner, id),
    ensures
        ({
            let path = breadcrumb_path(folders, id);
            &&& path.len() >= 1
            &&& path.last().id == id
            &&& folders[folder_at(folders, path[0].id)].parent_id is None
            &&& forall|k: int|
                0 <= k < path.len() - 1 ==> parent_of(folders, #[trigger] path[k + 1].id) == Some(
                    path[k].id,
                )
            &&& forall|k: int|
                0 <= k < path.len() ==> #[trigger] breadcrumb_path(folders, path[k].id)
                    == path.take(k + 1)
            &&& forall|k: int|
                0 <= k < path.len() ==> owns_folder(folders, owner, #[trigger] path[k].id)
            &&& forall|k: int|
                0 <= k < path.len() ==> #[trigger] path[k] == crumb_of(folders, path[k].id)
        }),
    decreases place_of(folders, id),
{
    let path = breadcrumb_path(folders, id);
    let i = choose|i: int| 0 <= i < folders.len() && folders[i].id == id && folders[i].user_id == owner;
    lemma_folder_at(folders, i);
    assert(parent_ok(folders, i));
    match folders[i].parent_id {
        None => {
            assert(path =~= seq![crumb_of(folders, id)]);
            assert(path.take(1) =~= path);
        },
        Some(p) => {
            let k = choose|k: int|
                0 <= k < i && folders[k].id == p && folders[k].user_id == folders[i].user_id;
            lemma_folder_at(folders, k);
            assert(parent_of(folders, id) == Some(p));
            lemma_breadcrumbs_root_first(folders, next, owner, p);
            let up = breadcrumb_path(folders, p);
            assert(path =~= up.push(crumb_of(folders, id)));
            assert(path.take(path.len() as int) =~= path);
            assert forall|k: int| 0 <= k < path.len() implies #[trigger] breadcrumb_path(
                folders,
                path[k].id,
            ) == path.take(k + 1) by {
                if k < up.len() {
                    assert(path[k] == up[k]);
                    assert(up.take(k + 1) =~= path.take(k + 1));
                }
            }
            assert forall|k: int| 0 <= k < path.len() - 1 implies parent_of(
                folders,
                #[trigger] path[k + 1].id,
            ) == Some(path[k].id) by {
                if k + 1 < up.len() {
                    assert(path[k + 1] == up[k + 1]);
                    assert(path[k] == up[k]);
                } else {
                    assert(path[k] == up.last());
                }
            }
            assert forall|k: int| 0 <= k < path.len() implies owns_folder(
                folders,
                owner,
                #[trigger] path[k].id,
            ) by {
                if k < up.len() {
                    assert(path[k] == up[k]);
                }
            }
            assert forall|k: int| 0 <= k < path.len() implies #[trigger] path[k] == crumb_of(
                folders,
                path[k].id,
            ) by {
                if k < up.len() {
                    assert(path[k] == up[k]);
                }
            }
        },
    }
}

/// How many of the marks are set.
pub open spec fn count_set(marks: Seq<bool>) -> nat
    decreases marks.len(),
{
    if marks.len() == 0 {
        0
    } else {
        count_set(marks.drop_last()) + if marks.last() {
            1nat
        } else {
            0nat
        }
    }
}

/// No more marks are set than there are.
pub proof fn lemma_count_set_bound(marks: Seq<bool>)
    ensures
        count_set(marks) <= marks.len(),
    decreases marks.len(),
{
    if marks.len() > 0 {
        lemma_count_set_bound(marks.drop_last());
    }
}

/// Setting a mark that was not set adds one to the count.
pub proof fn lemma_count_set_grows(marks: Seq<bool>, i: int)
    requires
        0 <= i < marks.len(),
        !marks[i],
    ensures
        count_set(marks.update(i, true)) == count_set(marks) + 1,
    decreases marks.len(),
{
    let after = marks.update(i, true);
    if i == marks.len() - 1 {
        assert(after.drop_last() =~= marks.drop_last());
    } else {
        lemma_count_set_grows(marks.drop_last(), i);
        assert(after.drop_last() =~= marks.drop_last().update(i, true));
    }
}

/// No further folder can be marked: an unmarked folder hangs under no marked one.
pub open spec fn settled(folders: Seq<FolderRow>, marks: Seq<bool>, j: int) -> bool {
    marks[j] || match parent_of(folders, folders[j].id) {
        Some(p) => !(has_folder(folders, p) && marks[folder_at(folders, p)]),
        None => true,
    }
}

proof fn lemma_settled_marks_all(folders: Seq<FolderRow>, marks: Seq<bool>, root: i32, j: int)
    requires
        marks.len() == folders.len(),
        0 <= j < folders.len(),
        forall|a: int, b: int| 0 <= a < b < folders.len() ==> folders[a].id != folders[b].id,
        forall|k: int| 0 <= k < folders.len() && folders[k].id == root ==> marks[k],
        forall|k: int| 0 <= k < folders.len() ==> settled(folders, marks, k),
        in_subtree(folders, root, folders[j].id),
    ensures
        marks[j],
    decreases j,
{
    let id = folders[j].id;
    lemma_folder_at(folders, j);
    if id != root {
        let p = parent_of(folders, id).unwrap();
        assert(in_subtree(folders, root, p));
        let k = folder_at(folders, p);
        assert(0 <= k < folders.len() && folders[k].id == p);
        lemma_settled_marks_all(folders, marks, root, k);
        assert(settled(folders, marks, j));
    }
}

/// For each folder row, whether it is `root` or lies below it. The marks are
/// found by starting from `root` and marking, round after round, every
/// folder that hangs under a marked one, until a round marks nothing.
pub fn mark_subtree(folders: &Vec<FolderRow>, root: i32) -> (marks: Vec<bool>)
    requires
        forall|a: int, b: int| 0 <= a < b < folders.len() ==> folders[a].id != folders[b].id,
    ensures
        marks.len() == folders.len(),
        forall|j: int|
            0 <= j < folders.len() ==> marks[j] == in_subtree(folders@, root, folders[j].id),
{
    let n = folders.len();
    let mut marks: Vec<bool> = Vec::new();
    let mut i: usize = 0;
    while i < n
        invariant
            n == folders.len(),
            i <= n,
            marks.len() == i,
            forall|a: int, b: int| 0 <= a < b < folders.len() ==> folders[a].id != folders[b].id,
            forall|j: int| 0 <= j < i ==> marks[j] == (folders[j].id == root),
        decreases n - i,
    {
        marks.push(folders[i].id == root);
        i += 1;
    }
    proof {
        assert forall|j: int| 0 <= j < n && marks[j] implies in_subtree(
            folders@,
            root,
            folders[j].id,
        ) by {
            lemma_folder_at(folders@, j);
        }
    }
    let mut grew = true;
    while grew
        invariant
            n == folders.len(),
            marks.len() == n,
            forall|a: int, b: int| 0 <= a < b < folders.len() ==> folders[a].id != folders[b].id,
            forall|j: int| 0 <= j < n && folders[j].id == root ==> marks[j],
            forall|j: int| 0 <= j < n && marks[j] ==> in_subtree(folders@, root, folders[j].id),
            !grew ==> forall|j: int| 0 <= j < n ==> settled(folders@, marks@, j),
        decreases n - count_set(marks@), (if grew { 1int } else { 0int }),
    {
        let ghost at_start = marks@;
        grew = false;
        proof {
            lemma_count_set_bound(marks@);
        }
        let mut j: usize = 0;
        while j < n
            invariant
                n == folders.len(),
                marks.len() == n,
                j <= n,
                forall|a: int, b: int|
                    0 <= a < b < folders.len() ==> folders[a].id != folders[b].id,
                forall|k: int| 0 <= k < n && folders[k].id == root ==> marks[k],
                forall|k: int|
                    0 <= k < n && marks[k] ==> in_subtree(folders@, root, folders[k].id),
                !grew ==> marks@ == at_start,
                !grew ==> forall|k: int| 0 <= k < j ==> settled(folders@, marks@, k),
                grew ==> count_set(marks@) > count_set(at_start),
                count_set(marks@) <= n,
            decreases n - j,
        {
            proof {
                lemma_folder_at(folders@, j as int);
                lemma_count_set_bound(marks@);
            }
            if !marks[j] {
                let id = folders[j].id;
                let mut hangs_under_marked = false;
                match folders[j].parent_id {
                    Some(p) => {
                        match find_folder(folders, p) {
                            Some(k) => {
                                proof {
                                    lemma_folder_at(folders@, k as int);
                                }
                                if k < j {
                                    hangs_under_marked = marks[k];
                                }
                            },
                            None => {},
                        }
                    },
                    None => {},
                }
                if hangs_under_marked {
                    proof {
                        lemma_count_set_grows(marks@, j as int);
                        lemma_count_set_bound(marks@.update(j as int, true));
                    }
                    marks.set(j, true);
                    grew = true;
                } else {
                    assert(settled(folders@, marks@, j as int));
                }
            }
            j += 1;
        }
        proof {
            lemma_count_set_bound(marks@);
        }
    }
    proof {
        assert forall|j: int| 0 <= j < folders.len() implies marks[j] == in_subtree(
            folders@,
            root,
            folders[j].id,
        ) by {
            if in_subtree(folders@, root, folders[j].id) {
                lemma_settled_marks_all(folders@, marks@, root, j);
            }
        }
    }
    marks
}

/// Of the first `n` folder rows, the ids of those that are `root` or lie below it.
pub open spec fn subtree_ids_upto(folders: Seq<FolderRow>, root: i32, n: int) -> Seq<i32>
    decreases n,
{
    if n <= 0 {
        Seq::empty()
    } else {
        let rest = subtree_ids_upto(folders, root, n - 1);
        if in_subtree(folders, root, folders[n - 1].id) {
            rest.push(folders[n - 1].id)
        } else {
            rest
        }
    }
}

/// The ids of `root` and of every folder below it, in the order of the rows.
pub open spec fn subtree_ids(folders: Seq<FolderRow>, root: i32) -> Seq<i32> {
    subtree_ids_upto(folders, root, folders.len() as int)
}

/// The ids of `root` and of every folder below it, in the order of the rows.
pub fn descendant_ids(folders: &Vec<FolderRow>, root: i32) -> (r: Vec<i32>)
    requires
        forall|a: int, b: int| 0 <= a < b < folders.len() ==> folders[a].id != folders[b].id,
    ensures
        r@ == subtree_ids(folders@, root),
{
    let marks = mark_subtree(folders, root);
    let mut out: Vec<i32> = Vec::new();
    let mut i: usize = 0;
    while i < folders.len()
        invariant
            i <= folders.len(),
            marks.len() == folders.len(),
            forall|j: int|
                0 <= j < folders.len() ==> marks[j] == in_subtree(folders@, root, folders[j].id),
            out@ == subtree_ids_upto(folders@, root, i as int),
        decreases folders.len() - i,
    {
        if marks[i] {
            out.push(folders[i].id);
        }
        i += 1;
    }
    out
}

/// The listed ids are exactly those of the folders at or below `root`, each once.
pub proof fn lemma_subtree_ids(folders: Seq<FolderRow>, root: i32, n: int)
    requires
        0 <= n <= folders.len(),
        forall|a: int, b: int| 0 <= a < b < folders.len() ==> folders[a].id != folders[b].id,
    ensures
        forall|id: i32| #[trigger]
            subtree_ids_upto(folders, root, n).contains(id) <==> in_subtree(folders, root, id) && (
            exists|j: int| 0 <= j < n && folders[j].id == id),
        subtree_ids_upto(folders, root, n).no_duplicates(),
    decreases n,
{
    if n > 0 {
        lemma_subtree_ids(folders, root, n - 1);
        let rest = subtree_ids_upto(folders, root, n - 1);
        let all = subtree_ids_upto(folders, root, n);
        let last = folders[n - 1].id;
        assert forall|id: i32| #[trigger] all.contains(id) <==> in_subtree(folders, root, id) && (
        exists|j: int| 0 <= j < n && folders[j].id == id) by {
            if all.contains(id) {
                let k = choose|k: int| 0 <= k < all.len() && all[k] == id;
                if k < rest.len() {
                    assert(rest[k] == id);
                    assert(rest.contains(id));
                } else {
                    assert(id == last);
                    assert(folders[n - 1].id == id);
                }
            }
            if in_subtree(folders, root, id) && (exists|j: int| 0 <= j < n && folders[j].id == id) {
                let j = choose|j: int| 0 <= j < n && folders[j].id == id;
                if j < n - 1 {
                    assert(rest.contains(id));
                    let k = choose|k: int| 0 <= k < rest.len() && rest[k] == id;
                    assert(all[k] == id);
                } else {
                    assert(all[all.len() - 1] == id);
                }
            }
        }
        if in_subtree(folders, root, last) {
            assert(!rest.contains(last)) by {
                if rest.contains(last) {
                    let j = choose|j: int| 0 <= j < n - 1 && folders[j].id == last;
                    assert(folders[j].id != folders[n - 1].id);
                }
            }
            assert forall|a: int, b: int| 0 <= a < all.len() && 0 <= b < all.len() && a
                != b implies all[a] != all[b] by {
                if a < rest.len() && b < rest.len() {
                    assert(rest[a] != rest[b]);
                } else if a < rest.len() {
                    assert(rest.contains(rest[a]));
                } else {
                    assert(rest.contains(rest[b]));
                }
            }
        }
    }
}

/// Whether a photo belongs to `owner` and lies in `root` or anywhere below it.
pub open spec fn lies_under(folders: Seq<FolderRow>, root: i32, owner: i32, p: PhotoRow) -> bool {
    p.user_id == owner && match p.folder_id {
        Some(f) => in_subtree(folders, root, f),
        None => false,
    }
}

/// The number of `owner`'s photos in `root` or anywhere below it.
pub open spec fn photo_count_under(
    folders: Seq<FolderRow>,
    photos: Seq<PhotoRow>,
    owner: i32,
    root: i32,
) -> nat
    decreases photos.len(),
{
    if photos.len() == 0 {
        0
    } else {
        photo_count_under(folders, photos.drop_last(), owner, root) + if lies_under(
            folders,
            root,
            owner,
            photos.last(),
        ) {
            1nat
        } else {
            0nat
        }
    }
}

/// The bytes that `owner`'s photos in `root` or anywhere below it take, added up.
pub open spec fn photo_bytes_under(
    folders: Seq<FolderRow>,
    photos: Seq<PhotoRow>,
    owner: i32,
    root: i32,
) -> int
    decreases photos.len(),
{
    if photos.len() == 0 {
        0
    } else {
        photo_bytes_under(folders, photos.drop_last(), owner, root) + if lies_under(
            folders,
            root,
            owner,
            photos.last(),
        ) {
            photos.last().size_in_bytes as int
        } else {
            0int
        }
    }
}

/// A total of bytes as it is reported: the total itself, or nothing where
/// it does not fit the field.
pub open spec fn reported_bytes(total: int) -> Option<i64> {
    if i64::MIN <= total <= i64::MAX {
        Some(total as i64)
    } else {
        None
    }
}

proof fn lemma_totals_bound(folders: Seq<FolderRow>, photos: Seq<PhotoRow>, owner: i32, root: i32)
    ensures
        photo_count_under(folders, photos, owner, root) <= photos.len(),
        -0x8000_0000_0000_0000 * photos.len() <= photo_bytes_under(folders, photos, owner, root)
            <= 0x8000_0000_0000_0000 * photos.len(),
    decreases photos.len(),
{
    if photos.len() > 0 {
        lemma_totals_bound(folders, photos.drop_last(), owner, root);
    }
}

/// The number of `owner`'s photos in `root` or anywhere below it, and the
/// bytes they take; no number of bytes where the total does not fit.
pub fn photo_totals(folders: &Vec<FolderRow>, photos: &Vec<PhotoRow>, owner: i32, root: i32) -> (r:
    (usize, Option<i64>))
    requires
        forall|a: int, b: int| 0 <= a < b < folders.len() ==> folders[a].id != folders[b].id,
    ensures
        r.0 == photo_count_under(folders@, photos@, owner, root),
        r.1 == reported_bytes(photo_bytes_under(folders@, photos@, owner, root)),
{
    let marks = mark_subtree(folders, root);
    let mut count: usize = 0;
    let mut bytes: i128 = 0;
    let mut i: usize = 0;
    while i < photos.len()
        invariant
            i <= photos.len(),
            marks.len() == folders.len(),
            forall|a: int, b: int| 0 <= a < b < folders.len() ==> folders[a].id != folders[b].id,
            forall|j: int|
                0 <= j < folders.len() ==> marks[j] == in_subtree(folders@, root, folders[j].id),
            count == photo_count_under(folders@, photos@.take(i as int), owner, root),
            bytes == photo_bytes_under(folders@, photos@.take(i as int), owner, root),
        decreases photos.len() - i,
    {
        proof {
            assert(photos@.take(i + 1).drop_last() =~= photos@.take(i as int));
            lemma_totals_bound(folders@, photos@.take(i + 1), owner, root);
        }
        let photo = &photos[i];
        let mut under = false;
        if photo.user_id == owner {
            match photo.folder_id {
                Some(f) => {
                    match find_folder(folders, f) {
                        Some(k) => {
                            proof {
                                lemma_folder_at(folders@, k as int);
                            }
                            under = marks[k];
                        },
                        None => {},
                    }
                },
                None => {},
            }
        }
        if under {
            count += 1;
            bytes += photo.size_in_bytes as i128;
        }
        i += 1;
    }
    assert(photos@.take(photos.len() as int) =~= photos@);
    let reported: Option<i64> = if -0x8000_0000_0000_0000 <= bytes && bytes
        <= 0x7fff_ffff_ffff_ffff {
        Some(bytes as i64)
    } else {
        None
    };
    (count, reported)
}

/// A photo that comes to lie in `root` or below it adds one to the count and
/// its size to the bytes there; any other new photo changes neither. So with
/// sizes that are not negative, neither total ever falls when a photo is added.
pub proof fn lemma_new_photo_adds_to_totals(
    folders: Seq<FolderRow>,
    photos: Seq<PhotoRow>,
    owner: i32,
    root: i32,
    p: PhotoRow,
)
    ensures
        lies_under(folders, root, owner, p) ==> photo_count_under(
            folders,
            photos.push(p),
            owner,
            root,
        ) == photo_count_under(folders, photos, owner, root) + 1 && photo_bytes_under(
            folders,
            photos.push(p),
            owner,
            root,
        ) == photo_bytes_under(folders, photos, owner, root) + p.size_in_bytes,
        !lies_under(folders, root, owner, p) ==> photo_count_under(
            folders,
            photos.push(p),
            owner,
            root,
        ) == photo_count_under(folders, photos, owner, root) && photo_bytes_under(
            folders,
            photos.push(p),
            owner,
            root,
        ) == photo_bytes_under(folders, photos, owner, root),
{
    assert(photos.push(p).drop_last() =~= photos);
}

/// A photo in a folder lies under every folder on that folder's path: what
/// is at or below a folder is at or below each folder above it.
pub proof fn lemma_subtree_nests(folders: Seq<FolderRow>, upper: i32, lower: i32, id: i32)
    requires
        in_subtree(folders, upper, lower),
        in_subtree(folders, lower, id),
    ensures
        in_subtree(folders, upper, id),
    decreases place_of(folders, id),
{
    if id != lower {
        let p = parent_of(folders, id).unwrap();
        lemma_subtree_nests(folders, upper, lower, p);
    }
}

/// The photos counted under a folder are the owner's photos in one of the
/// folders that `subtree_ids` lists.
pub proof fn lemma_lies_under_listed(folders: Seq<FolderRow>, root: i32, owner: i32, p: PhotoRow)
    requires
        forall|a: int, b: int| 0 <= a < b < folders.len() ==> folders[a].id != folders[b].id,
    ensures
        lies_under(folders, root, owner, p) <==> p.user_id == owner && p.folder_id is Some
            && subtree_ids(folders, root).contains(p.folder_id->Some_0),
{
    lemma_subtree_ids(folders, root, folders.len() as int);
}

/// A folder lies at or below every folder on its path.
pub proof fn lemma_path_holds_folder(
    folders: Seq<FolderRow>,
    next: int,
    owner: i32,
    id: i32,
    k: int,
)
    requires
        folders_wf(folders, next),
        owns_folder(folders, owner, id),
        0 <= k < breadcrumb_path(folders, id).len(),
    ensures
        in_subtree(folders, breadcrumb_path(folders, id)[k].id, id),
    decreases place_of(folders, id),
{
    let path = breadcrumb_path(folders, id);
    let i = choose|i: int| 0 <= i < folders.len() && folders[i].id == id && folders[i].user_id == owner;
    lemma_folder_at(folders, i);
    lemma_breadcrumbs_root_first(folders, next, owner, id);
    assert(parent_ok(folders, i));
    if k < path.len() - 1 {
        let p = folders[i].parent_id->Some_0;
        let above = choose|above: int|
            0 <= above < i && folders[above].id == p && folders[above].user_id
                == folders[i].user_id;
        lemma_folder_at(folders, above);
        assert(parent_of(folders, id) == Some(p));
        let up = breadcrumb_path(folders, p);
        assert(path =~= up.push(crumb_of(folders, id)));
        lemma_path_holds_folder(folders, next, owner, p, k);
        assert(path[k] == up[k]);
    }
}

/// A photo that the owner puts into a folder adds one to the count, and its
/// size to the bytes, of every folder on the path to that folder.
pub proof fn lemma_new_photo_adds_along_path(
    folders: Seq<FolderRow>,
    next: int,
    photos: Seq<PhotoRow>,
    owner: i32,
    p: PhotoRow,
    k: int,
)
    requires
        folders_wf(folders, next),
        p.user_id == owner,
        p.folder_id is Some,
        owns_folder(folders, owner, p.folder_id->Some_0),
        0 <= k < breadcrumb_path(folders, p.folder_id->Some_0).len(),
    ensures
        ({
            let above = breadcrumb_path(folders, p.folder_id->Some_0)[k].id;
            &&& photo_count_under(folders, photos.push(p), owner, above) == photo_count_under(
                folders,
                photos,
                owner,
                above,
            ) + 1
            &&& photo_bytes_under(folders, photos.push(p), owner, above) == photo_bytes_under(
                folders,
                photos,
                owner,
                above,
            ) + p.size_in_bytes
        }),
{
    let above = breadcrumb_path(folders, p.folder_id->Some_0)[k].id;
    lemma_path_holds_folder(folders, next, owner, p.folder_id->Some_0, k);
    lemma_new_photo_adds_to_totals(folders, photos, owner, above, p);
}

} // verus!
