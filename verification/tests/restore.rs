use photo_archive::arrange::parents_first;
use photo_archive::handlers::folder_handler::create_folder;
use photo_archive::models::folder::FolderCreateRequest;
use photo_archive::models::user::Claims;
use photo_archive::store::{FolderRow, PhotoRow, PhotoTagRelation, Store, TagRow};

fn folder(id: i32, user_id: i32, parent_id: Option<i32>) -> FolderRow {
    FolderRow { id, user_id, name: format!("f{}", id), description: None, parent_id }
}

fn photo(id: i32, user_id: i32, folder_id: Option<i32>) -> PhotoRow {
    PhotoRow {
        id,
        user_id,
        name: format!("p{}", id),
        description: None,
        folder_id,
        image_path: format!("/images/{}.jpg", id),
        uploaded_at: 0,
        size_in_bytes: 1,
        width: 2,
        height: 3,
    }
}

fn tag(id: i32, user_id: i32, text: &str) -> TagRow {
    TagRow { id, user_id, tag: text.to_string() }
}

fn rel(photo_id: i32, tag_id: i32) -> PhotoTagRelation {
    PhotoTagRelation { photo_id, tag_id }
}

#[test]
fn consistent_rows_are_restored_and_ids_go_on() {
    let store = Store::restore(
        vec![folder(4, 1, None), folder(9, 1, Some(4)), folder(2, 2, None)],
        vec![photo(5, 1, Some(9)), photo(6, 2, None)],
        vec![tag(3, 1, "a"), tag(8, 2, "a")],
        vec![rel(5, 3), rel(6, 8)],
    );
    let mut store = store.unwrap();
    assert_eq!(store.folders().len(), 3);
    assert_eq!(store.photos()[0].width, 2);
    assert_eq!(store.tags()[1].tag, "a");
    assert_eq!(store.relations().len(), 2);
    let req = FolderCreateRequest { name: "n".to_string(), description: None, parent_id: Some(9) };
    let id = create_folder(&mut store, &Claims { user_id: 1, root_folder: 4, exp: 0 }, &req);
    assert_eq!(id, Ok(10));
}

#[test]
fn an_empty_record_is_restored() {
    let store = Store::restore(vec![], vec![], vec![], vec![]).unwrap();
    assert!(store.folders().is_empty());
    let fresh = Store::new();
    assert!(fresh.photos().is_empty() && fresh.tags().is_empty() && fresh.relations().is_empty());
}

#[test]
fn a_snapshot_holds_the_same_rows() {
    let store = Store::restore(
        vec![folder(1, 1, None)],
        vec![photo(1, 1, Some(1))],
        vec![tag(1, 1, "a")],
        vec![rel(1, 1)],
    )
    .unwrap();
    let copy = store.snapshot();
    assert_eq!(copy.folders(), store.folders());
    assert_eq!(copy.photos(), store.photos());
    assert_eq!(copy.tags(), store.tags());
    assert_eq!(copy.relations(), store.relations());
}

#[test]
fn inconsistent_folders_are_refused() {
    assert!(Store::restore(vec![folder(1, 1, None), folder(1, 1, None)], vec![], vec![], vec![]).is_none());
    assert!(Store::restore(vec![folder(1, 1, Some(7))], vec![], vec![], vec![]).is_none());
    assert!(Store::restore(vec![folder(1, 1, Some(1))], vec![], vec![], vec![]).is_none());
    assert!(Store::restore(vec![folder(1, 1, Some(2)), folder(2, 1, None)], vec![], vec![], vec![]).is_none());
    assert!(Store::restore(vec![folder(1, 1, None), folder(2, 2, Some(1))], vec![], vec![], vec![]).is_none());
    assert!(Store::restore(vec![folder(i32::MAX, 1, None)], vec![], vec![], vec![]).is_none());
    assert!(Store::restore(vec![folder(2, 1, Some(1)), folder(1, 1, None)], vec![], vec![], vec![]).is_none());
    assert!(Store::restore(vec![folder(-5, 1, None)], vec![], vec![], vec![]).is_some());
}

#[test]
fn a_parent_may_carry_the_greater_id_if_its_row_comes_first() {
    let store = Store::restore(
        vec![folder(9, 1, None), folder(4, 1, Some(9)), folder(6, 1, Some(4))],
        vec![photo(1, 1, Some(6))],
        vec![],
        vec![],
    )
    .unwrap();
    let path: Vec<i32> =
        photo_archive::tree::breadcrumbs(store.folders(), 6).iter().map(|b| b.id).collect();
    assert_eq!(path, vec![9, 4, 6]);
    assert_eq!(photo_archive::tree::descendant_ids(store.folders(), 9), vec![9, 4, 6]);
    assert_eq!(photo_archive::tree::descendant_ids(store.folders(), 4), vec![4, 6]);
    assert_eq!(
        photo_archive::tree::photo_totals(store.folders(), store.photos(), 1, 9),
        (1, Some(1))
    );
}

#[test]
fn inconsistent_photos_are_refused() {
    let folders = || vec![folder(1, 1, None), folder(2, 2, None)];
    assert!(Store::restore(folders(), vec![photo(1, 1, Some(1)), photo(1, 1, None)], vec![], vec![]).is_none());
    assert!(Store::restore(folders(), vec![photo(1, 1, Some(2))], vec![], vec![]).is_none());
    assert!(Store::restore(folders(), vec![photo(1, 1, Some(3))], vec![], vec![]).is_none());
    assert!(Store::restore(folders(), vec![photo(i32::MAX, 1, None)], vec![], vec![]).is_none());
    assert!(Store::restore(folders(), vec![photo(1, 1, Some(1)), photo(2, 2, Some(2))], vec![], vec![]).is_some());
}

#[test]
fn inconsistent_labels_and_relations_are_refused() {
    let photos = || vec![photo(1, 1, None), photo(2, 2, None)];
    assert!(Store::restore(vec![], photos(), vec![tag(1, 1, "a"), tag(1, 1, "b")], vec![]).is_none());
    assert!(Store::restore(vec![], photos(), vec![tag(1, 1, "a"), tag(2, 1, "a")], vec![]).is_none());
    assert!(Store::restore(vec![], photos(), vec![tag(i32::MAX, 1, "a")], vec![]).is_none());
    assert!(Store::restore(vec![], photos(), vec![tag(1, 1, "a"), tag(2, 2, "a")], vec![]).is_some());
    let tags = || vec![tag(1, 1, "a"), tag(2, 2, "a")];
    assert!(Store::restore(vec![], photos(), tags(), vec![rel(1, 1), rel(1, 1)]).is_none());
    assert!(Store::restore(vec![], photos(), tags(), vec![rel(1, 2)]).is_none());
    assert!(Store::restore(vec![], photos(), tags(), vec![rel(3, 1)]).is_none());
    assert!(Store::restore(vec![], photos(), tags(), vec![rel(1, 3)]).is_none());
    assert!(Store::restore(vec![], photos(), tags(), vec![rel(1, 1), rel(2, 2)]).is_some());
}

fn ids(rows: &Vec<FolderRow>) -> Vec<i32> {
    rows.iter().map(|f| f.id).collect()
}

#[test]
fn rows_that_stand_parents_first_keep_their_order() {
    let rows = vec![folder(4, 1, None), folder(9, 1, Some(4)), folder(2, 2, None), folder(5, 1, Some(9))];
    let arranged = parents_first(&rows);
    assert_eq!(arranged, rows);
    assert!(parents_first(&vec![]).is_empty());
}

#[test]
fn children_are_put_behind_their_parents() {
    let rows = vec![folder(3, 1, Some(2)), folder(2, 1, Some(1)), folder(1, 1, None), folder(7, 1, Some(3))];
    assert!(Store::restore(rows.clone(), vec![], vec![], vec![]).is_none());
    let arranged = parents_first(&rows);
    assert_eq!(ids(&arranged), vec![1, 2, 3, 7]);
    assert_eq!(arranged[2], rows[0]);
    let store = Store::restore(arranged, vec![photo(1, 1, Some(7))], vec![], vec![]).unwrap();
    let path: Vec<i32> =
        photo_archive::tree::breadcrumbs(store.folders(), 7).iter().map(|b| b.id).collect();
    assert_eq!(path, vec![1, 2, 3, 7]);
}

#[test]
fn every_row_comes_out_once_whatever_the_rows() {
    let cycle = vec![folder(1, 1, Some(2)), folder(2, 1, Some(1)), folder(3, 1, None), folder(4, 1, Some(3))];
    let arranged = parents_first(&cycle);
    assert_eq!(ids(&arranged), vec![3, 4, 1, 2]);
    assert!(Store::restore(arranged, vec![], vec![], vec![]).is_none());

    let own_parent = vec![folder(1, 1, Some(1))];
    assert_eq!(ids(&parents_first(&own_parent)), vec![1]);
    assert!(Store::restore(parents_first(&own_parent), vec![], vec![], vec![]).is_none());

    let dangling = vec![folder(1, 1, Some(8)), folder(2, 1, None)];
    assert_eq!(ids(&parents_first(&dangling)), vec![2, 1]);
    assert!(Store::restore(parents_first(&dangling), vec![], vec![], vec![]).is_none());

    let foreign = vec![folder(2, 2, Some(1)), folder(1, 1, None)];
    assert_eq!(ids(&parents_first(&foreign)), vec![1, 2]);
    assert!(Store::restore(parents_first(&foreign), vec![], vec![], vec![]).is_none());

    let twice = vec![folder(1, 1, None), folder(1, 1, None), folder(2, 1, Some(1))];
    assert_eq!(parents_first(&twice).len(), 3);
}

#[test]
fn a_record_can_be_restored_with_its_next_ids() {
    let store = Store::restore_with_next(
        vec![folder(1, 1, None)],
        vec![photo(2, 1, Some(1))],
        vec![tag(3, 1, "a")],
        vec![rel(2, 3)],
        50,
        60,
        70,
    );
    let mut store = store.unwrap();
    let req = FolderCreateRequest { name: "n".to_string(), description: None, parent_id: None };
    let id = create_folder(&mut store, &Claims { user_id: 1, root_folder: 1, exp: 0 }, &req);
    assert_eq!(id, Ok(50));
    let id = create_folder(&mut store, &Claims { user_id: 1, root_folder: 1, exp: 0 }, &req);
    assert_eq!(id, Ok(51));
    assert_eq!(
        photo_archive::handlers::tags_handler::add_or_reuse_tag(&mut store, 1, &"b".to_string()),
        Ok(70)
    );
}

#[test]
fn the_next_ids_must_lie_above_every_id() {
    let rows = || (vec![folder(5, 1, None)], vec![photo(6, 1, None)], vec![tag(7, 1, "a")]);
    let (f, p, t) = rows();
    assert!(Store::restore_with_next(f, p, t, vec![], 6, 7, 8).is_some());
    let (f, p, t) = rows();
    assert!(Store::restore_with_next(f, p, t, vec![], 5, 7, 8).is_none());
    let (f, p, t) = rows();
    assert!(Store::restore_with_next(f, p, t, vec![], 6, 6, 8).is_none());
    let (f, p, t) = rows();
    assert!(Store::restore_with_next(f, p, t, vec![], 6, 7, 7).is_none());
    assert!(Store::restore_with_next(vec![], vec![], vec![], vec![], -3, 0, i32::MAX).is_some());
    let (f, p, t) = rows();
    assert!(Store::restore_with_next(f, p, t, vec![rel(6, 9)], 6, 7, 8).is_none());
}
