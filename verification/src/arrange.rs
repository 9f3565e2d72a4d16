use vstd::prelude::*;
use crate::store::{
    FolderRow, StoreView, filing_ok, folder_at, folders_wf, has_folder, owns_folder, parent_ok,
    photos_wf, relations_wf, tags_wf,
};
use crate::tree::{
    count_set, find_folder, lemma_count_set_bound, lemma_count_set_grows, lemma_folder_at,
};

verus! {

/// Whether following the parents from folder `id` leads to a root within
/// `fuel` steps, each parent being a folder of the same owner.
pub open spec fn rooted(folders: Seq<FolderRow>, id: i32, fuel: nat) -> bool
    decreases fuel,
{
    has_folder(folders, id) && match folders[folder_at(folders, id)].parent_id {
        None => true,
        Some(p) => fuel > 0 && owns_folder(
            folders,
            folders[folder_at(folders, id)].user_id,
            p,
        ) && rooted(folders, p, (fuel - 1) as nat),
    }
}

/// The folders form trees, in whatever order their rows stand: no id occurs
/// twice, and from every folder the parents lead to a root without coming
/// back. A way that does not come back passes each folder once at most, so
/// it is no longer than there are folders.
pub open spec fn is_forest(folders: Seq<FolderRow>) -> bool {
    &&& forall|a: int, b: int| 0 <= a < b < folders.len() ==> folders[a].id != folders[b].id
    &&& forall|i: int|
        0 <= i < folders.len() ==> rooted(folders, (#[trigger] folders[i]).id, folders.len())
}

/// Whether `src` says for each place of `b` from which place of `a` its row
/// comes, and `dst` for each place of `a` to which place of `b` its row
/// goes, the one undoing the other.
pub open spec fn rearranges(src: Seq<int>, dst: Seq<int>, a: Seq<FolderRow>, b: Seq<FolderRow>) -> bool {
    &&& src.len() == b.len()
    &&& dst.len() == a.len()
    &&& a.len() == b.len()
    &&& forall|j: int|
        0 <= j < src.len() ==> 0 <= #[trigger] src[j] < a.len() && b[j] == a[src[j]]
            && dst[src[j]] == j
    &&& forall|i: int|
        0 <= i < dst.len() ==> 0 <= #[trigger] dst[i] < b.len() && src[dst[i]] == i
}

/// Whether `b` holds the rows of `a`, each once, in some order.
pub open spec fn is_rearranged(a: Seq<FolderRow>, b: Seq<FolderRow>) -> bool {
    exists|src: Seq<int>, dst: Seq<int>| rearranges(src, dst, a, b)
}

/// Whether the row at place `i` can follow the rows that are placed: it
/// hangs under none, or under a placed folder of its owner.
pub open spec fn can_place(folders: Seq<FolderRow>, placed: Seq<bool>, i: int) -> bool {
    match folders[i].parent_id {
        None => true,
        Some(p) => exists|k: int|
            0 <= k < folders.len() && placed[k] && folders[k].id == p && folders[k].user_id
                == folders[i].user_id,
    }
}

/// Once no further row can be placed, every folder of a forest is placed.
proof fn lemma_forest_is_placed(folders: Seq<FolderRow>, placed: Seq<bool>, i: int, fuel: nat)
    requires
        placed.len() == folders.len(),
        0 <= i < folders.len(),
        forall|a: int, b: int| 0 <= a < b < folders.len() ==> folders[a].id != folders[b].id,
        forall|k: int|
            0 <= k < folders.len() ==> placed[k] || !#[trigger] can_place(folders, placed, k),
        rooted(folders, folders[i].id, fuel),
    ensures
        placed[i],
    decreases fuel,
{
    lemma_folder_at(folders, i);
    assert(placed[i] || !can_place(folders, placed, i));
    match folders[i].parent_id {
        None => {},
        Some(p) => {
            let k = choose|k: int|
                0 <= k < folders.len() && folders[k].id == p && folders[k].user_id
                    == folders[i].user_id;
            lemma_folder_at(folders, k);
            lemma_forest_is_placed(folders, placed, k, (fuel - 1) as nat);
        },
    }
}

/// The folder rows in an order in which each folder follows the folder it
/// hangs under: the rows that hang under none come first, then, round after
/// round, the rows whose parent has found its place. Rows whose parents do
/// not lead to a root find no place that way and stand at the end.
///
/// The rows of a forest come out with every parent before its children, as
/// a record wants them.
pub fn parents_first(folders: &Vec<FolderRow>) -> (r: Vec<FolderRow>)
    ensures
        is_rearranged(folders@, r@),
        is_forest(folders@) ==> forall|i: int| 0 <= i < r.len() ==> #[trigger] parent_ok(r@, i),
{
    let n = folders.len();
    let mut placed: Vec<bool> = Vec::new();
    let mut i: usize = 0;
    while i < n
        invariant
            i <= n,
            placed.len() == i,
            forall|k: int| 0 <= k < i ==> !placed[k],
            count_set(placed@) == 0,
        decreases n - i,
    {
        let ghost before = placed@;
        placed.push(false);
        assert(placed@.drop_last() =~= before);
        i += 1;
    }
    let mut out: Vec<FolderRow> = Vec::new();
    let ghost mut src: Seq<int> = Seq::empty();
    let ghost mut dst: Seq<int> = Seq::new(n as nat, |k: int| 0int);
    let mut grew = true;
    while grew
        invariant
            n == folders.len(),
            placed.len() == n,
            out.len() == src.len(),
            out.len() == count_set(placed@),
            forall|j: int|
                0 <= j < src.len() ==> 0 <= #[trigger] src[j] < n && out[j] == folders[src[j]]
                    && placed[src[j]],
            dst.len() == n,
            forall|j: int| 0 <= j < src.len() ==> dst[#[trigger] src[j]] == j,
            forall|k: int|
                0 <= k < n && placed[k] ==> 0 <= #[trigger] dst[k] < src.len() && src[dst[k]] == k,
            forall|j: int| 0 <= j < out.len() ==> #[trigger] parent_ok(out@, j),
            !grew && (forall|a: int, b: int|
                0 <= a < b < folders.len() ==> folders[a].id != folders[b].id) ==> forall|k: int|
                0 <= k < n ==> placed[k] || !#[trigger] can_place(folders@, placed@, k),
        decreases n - count_set(placed@), (if grew { 1int } else { 0int }),
    {
        let ghost at_start = placed@;
        grew = false;
        proof {
            lemma_count_set_bound(placed@);
        }
        let mut i: usize = 0;
        while i < n
            invariant
                n == folders.len(),
                placed.len() == n,
                i <= n,
                out.len() == src.len(),
                out.len() == count_set(placed@),
                count_set(placed@) <= n,
                forall|j: int|
                    0 <= j < src.len() ==> 0 <= #[trigger] src[j] < n && out[j] == folders[src[j]]
                        && placed[src[j]],
                dst.len() == n,
                forall|j: int| 0 <= j < src.len() ==> dst[#[trigger] src[j]] == j,
                forall|k: int|
                    0 <= k < n && placed[k] ==> 0 <= #[trigger] dst[k] < src.len() && src[dst[k]]
                        == k,
                forall|j: int| 0 <= j < out.len() ==> #[trigger] parent_ok(out@, j),
                !grew ==> placed@ == at_start,
                grew ==> count_set(placed@) > count_set(at_start),
                !grew && (forall|a: int, b: int|
                    0 <= a < b < folders.len() ==> folders[a].id != folders[b].id)
                    ==> forall|k: int|
                    0 <= k < i ==> placed[k] || !#[trigger] can_place(folders@, placed@, k),
            decreases n - i,
        {
            if !placed[i] {
                let ghost mut above: int = 0;
                let fits = match folders[i].parent_id {
                    None => true,
                    Some(p) => match find_folder(folders, p) {
                        Some(k) => {
                            proof {
                                above = k as int;
                                if forall|a: int, b: int|
                                    0 <= a < b < folders.len() ==> folders[a].id != folders[b].id {
                                    lemma_folder_at(folders@, k as int);
                                    if can_place(folders@, placed@, i as int) {
                                        let w = choose|w: int|
                                            0 <= w < folders.len() && placed[w] && folders[w].id
                                                == p && folders[w].user_id
                                                == folders[i as int].user_id;
                                        lemma_folder_at(folders@, w);
                                    }
                                }
                            }
                            placed[k] && folders[k].user_id == folders[i].user_id
                        },
                        None => false,
                    },
                };
                if fits {
                    proof {
                        lemma_count_set_grows(placed@, i as int);
                        lemma_count_set_bound(placed@.update(i as int, true));
                    }
                    let ghost before = out@;
                    let ghost src_before = src;
                    let ghost placed_before = placed@;
                    out.push(folders[i].clone());
                    placed.set(i, true);
                    proof {
                        src = src.push(i as int);
                        dst = dst.update(i as int, out.len() - 1);
                        let last = out.len() - 1;
                        assert forall|j: int| 0 <= j < out.len() implies #[trigger] parent_ok(
                            out@,
                            j,
                        ) by {
                            if j < last {
                                assert(parent_ok(before, j));
                                match before[j].parent_id {
                                    Some(p) => {
                                        let k = choose|k: int|
                                            0 <= k < j && before[k].id == p && before[k].user_id
                                                == before[j].user_id;
                                        assert(out@[k] == before[k]);
                                    },
                                    None => {},
                                }
                            } else {
                                match folders[i as int].parent_id {
                                    Some(p) => {
                                        let at = dst[above];
                                        assert(src_before[at] == above);
                                        assert(out@[at] == folders[above]);
                                    },
                                    None => {},
                                }
                            }
                        }
                        assert forall|j: int| 0 <= j < src.len() implies dst[#[trigger] src[j]]
                            == j by {
                            if j < last {
                                assert(src_before[j] == src[j]);
                                assert(placed_before[src_before[j]]);
                            }
                        }
                    }
                    grew = true;
                }
            }
            i += 1;
        }
    }
    let ghost settled_at = out@;
    let ghost all_placed = forall|k: int| 0 <= k < n ==> placed[k];
    proof {
        if is_forest(folders@) {
            assert forall|k: int| 0 <= k < n implies placed[k] by {
                lemma_forest_is_placed(folders@, placed@, k, n as nat);
            }
        }
    }
    let ghost m = out.len();
    let mut i: usize = 0;
    while i < n
        invariant
            n == folders.len(),
            placed.len() == n,
            i <= n,
            m == count_set(placed@),
            out.len() == src.len(),
            out.len() - m == i - count_set(placed@.take(i as int)),
            all_placed == (forall|k: int| 0 <= k < n ==> placed[k]),
            all_placed ==> out@ == settled_at,
            forall|j: int|
                0 <= j < src.len() ==> 0 <= #[trigger] src[j] < n && out[j] == folders[src[j]] && (
                placed[src[j]] || src[j] < i) && dst[src[j]] == j,
            dst.len() == n,
            forall|k: int|
                0 <= k < n && (placed[k] || k < i) ==> 0 <= #[trigger] dst[k] < src.len()
                    && src[dst[k]] == k,
        decreases n - i,
    {
        proof {
            assert(placed@.take(i + 1).drop_last() =~= placed@.take(i as int));
        }
        if !placed[i] {
            out.push(folders[i].clone());
            proof {
                src = src.push(i as int);
                dst = dst.update(i as int, out.len() - 1);
            }
        }
        i += 1;
    }
    proof {
        assert(placed@.take(n as int) =~= placed@);
        assert(rearranges(src, dst, folders@, out@));
    }
    out
}

/// The rows of a record fit together, in whatever order the folder rows
/// stand: ids occur once and lie below the next id, the folders form
/// trees, a photo lies in a folder of its owner, a label's text occurs once
/// per owner, and a relation joins a photo and a label of one owner.
pub open spec fn fits_together(v: StoreView) -> bool {
    &&& i32::MIN <= v.next_folder_id <= i32::MAX
    &&& i32::MIN <= v.next_photo_id <= i32::MAX
    &&& i32::MIN <= v.next_tag_id <= i32::MAX
    &&& is_forest(v.folders)
    &&& forall|i: int| 0 <= i < v.folders.len() ==> (#[trigger] v.folders[i]).id < v.next_folder_id
    &&& photos_wf(v.folders, v.photos, v.next_photo_id)
    &&& tags_wf(v.tags, v.next_tag_id)
    &&& relations_wf(v.photos, v.tags, v.relations)
}

/// What leads to a root within some steps does so within more.
pub proof fn lemma_rooted_with_more(folders: Seq<FolderRow>, id: i32, fuel: nat, more: nat)
    requires
        rooted(folders, id, fuel),
        fuel <= more,
    ensures
        rooted(folders, id, more),
    decreases fuel,
{
    match folders[folder_at(folders, id)].parent_id {
        None => {},
        Some(p) => {
            lemma_rooted_with_more(folders, p, (fuel - 1) as nat, (more - 1) as nat);
        },
    }
}

/// Where every folder stands behind its parent, the parents lead from the
/// folder at place `i` to a root within `i` steps.
pub proof fn lemma_rooted_by_place(folders: Seq<FolderRow>, next: int, i: int)
    requires
        folders_wf(folders, next),
        0 <= i < folders.len(),
    ensures
        rooted(folders, folders[i].id, i as nat),
    decreases i,
{
    lemma_folder_at(folders, i);
    assert(parent_ok(folders, i));
    match folders[i].parent_id {
        None => {},
        Some(p) => {
            let k = choose|k: int|
                0 <= k < i && folders[k].id == p && folders[k].user_id == folders[i].user_id;
            lemma_rooted_by_place(folders, next, k);
            lemma_rooted_with_more(folders, p, k as nat, (i - 1) as nat);
        },
    }
}

/// A consistent record holds a forest: from every folder the parents lead
/// to a root without coming back.
pub proof fn lemma_wf_fits_together(v: StoreView)
    requires
        v.wf(),
    ensures
        fits_together(v),
{
    assert forall|i: int| 0 <= i < v.folders.len() implies rooted(
        v.folders,
        (#[trigger] v.folders[i]).id,
        v.folders.len(),
    ) by {
        lemma_rooted_by_place(v.folders, v.next_folder_id, i);
        lemma_rooted_with_more(v.folders, v.folders[i].id, i as nat, v.folders.len());
    }
}

/// Rows that fit together make a consistent record once the folder rows
/// stand parents first, in whatever order they stood: to put the folders
/// in that order is all that a record asks beyond a forest.
pub proof fn lemma_rearranged_record(v: StoreView, folders: Seq<FolderRow>)
    requires
        fits_together(v),
        is_rearranged(v.folders, folders),
        forall|i: int| 0 <= i < folders.len() ==> #[trigger] parent_ok(folders, i),
    ensures
        (StoreView { folders, ..v }).wf(),
{
    let (src, dst) = choose|src: Seq<int>, dst: Seq<int>| rearranges(src, dst, v.folders, folders);
    assert forall|a: int, b: int| 0 <= a < b < folders.len() implies folders[a].id
        != folders[b].id by {
        assert(folders[a] == v.folders[src[a]] && folders[b] == v.folders[src[b]]);
        assert(dst[src[a]] == a && dst[src[b]] == b);
        if src[a] < src[b] {
            assert(v.folders[src[a]].id != v.folders[src[b]].id);
        } else {
            assert(v.folders[src[b]].id != v.folders[src[a]].id);
        }
    }
    assert forall|i: int| 0 <= i < folders.len() implies (#[trigger] folders[i]).id
        < v.next_folder_id by {
        assert(folders[i] == v.folders[src[i]]);
    }
    assert forall|i: int| 0 <= i < v.photos.len() implies filing_ok(
        folders,
        #[trigger] v.photos[i],
    ) by {
        assert(filing_ok(v.folders, v.photos[i]));
        match v.photos[i].folder_id {
            Some(f) => {
                let k = choose|k: int|
                    0 <= k < v.folders.len() && v.folders[k].id == f && v.folders[k].user_id
                        == v.photos[i].user_id;
                assert(folders[dst[k]] == v.folders[src[dst[k]]]);
            },
            None => {},
        }
    }
}

} // verus!
