use photo_archive::error::{ApiError, ErrorKind};
use photo_archive::handlers::files_handler::get_folder_contents;
use photo_archive::handlers::folder_handler::{
    create_folder, delete_folder, folder_deletion_paths, update_folder,
};
use photo_archive::handlers::photo_handler::upload_photo;
use photo_archive::handlers::tags_handler::add_tag;
use photo_archive::message::{AppError, AppSuccess, FileType};
use photo_archive::models::folder::{FolderCreateRequest, FolderDeleteRequest, FolderUpdateRequest};
use photo_archive::models::photo::PhotoUploadRequest;
use photo_archive::models::tag::AddTagRequest;
use photo_archive::models::user::Claims;
use photo_archive::store::Store;
use photo_archive::tree::{breadcrumbs, descendant_ids, photo_totals};

fn claims(user_id: i32) -> Claims {
    Claims { user_id, root_folder: 1, exp: 0 }
}

fn folder(store: &mut Store, user: i32, name: &str, parent: Option<i32>) -> i32 {
    let req = FolderCreateRequest { name: name.to_string(), description: None, parent_id: parent };
    create_folder(store, &claims(user), &req).unwrap()
}

fn photo(store: &mut Store, user: i32, name: &str, folder: Option<i32>, size: i64) -> i32 {
    let req = PhotoUploadRequest {
        name: Some(name.to_string()),
        description: None,
        folder_id: folder,
        image_path: format!("/images/{}.jpg", name),
        size_in_bytes: size,
    };
    upload_photo(store, &claims(user), &req, 1_700_000_000).unwrap()
}

/// admin -> admin_1 -> admin_1_1, all of user 1.
fn admin_tree() -> Store {
    let mut store = Store::new();
    let admin = folder(&mut store, 1, "admin", None);
    let admin_1 = folder(&mut store, 1, "admin_1", Some(admin));
    folder(&mut store, 1, "admin_1_1", Some(admin_1));
    store
}

#[test]
fn test_existing_breadcrumbs() {
    let store = admin_tree();
    let contents = get_folder_contents(&store, &claims(1), 3).unwrap();
    let names: Vec<&str> = contents.breadcrumbs.iter().map(|b| b.name.as_str()).collect();
    assert_eq!(names, vec!["admin", "admin_1", "admin_1_1"]);
}

#[test]
fn breadcrumbs_run_from_the_root_to_the_folder() {
    let store = admin_tree();
    let path = breadcrumbs(store.folders(), 3);
    let ids: Vec<i32> = path.iter().map(|b| b.id).collect();
    assert_eq!(ids, vec![1, 2, 3]);
    assert_eq!(store.folders()[0].parent_id, None);
    for k in 1..path.len() {
        let child = store.folders().iter().find(|f| f.id == path[k].id).unwrap();
        assert_eq!(child.parent_id, Some(path[k - 1].id));
    }
    let root_only: Vec<i32> = breadcrumbs(store.folders(), 1).iter().map(|b| b.id).collect();
    assert_eq!(root_only, vec![1]);
    assert!(breadcrumbs(store.folders(), 99).is_empty());
}

#[test]
fn new_ids_start_at_one_and_grow() {
    let mut store = Store::new();
    assert_eq!(folder(&mut store, 1, "a", None), 1);
    assert_eq!(folder(&mut store, 2, "b", None), 2);
    assert_eq!(folder(&mut store, 1, "c", Some(1)), 3);
    assert_eq!(store.folders().len(), 3);
    assert_eq!(store.folders()[2].user_id, 1);
    assert_eq!(store.folders()[2].parent_id, Some(1));
    assert_eq!(store.folders()[2].name, "c");
}

#[test]
fn a_folder_cannot_hang_under_a_folder_of_someone_else() {
    let mut store = admin_tree();
    let req = FolderCreateRequest { name: "x".to_string(), description: None, parent_id: Some(1) };
    let r = create_folder(&mut store, &claims(2), &req);
    assert_eq!(r, Err(ApiError::FolderNotFound { folder_id: 1 }));
    let req = FolderCreateRequest { name: "x".to_string(), description: None, parent_id: Some(40) };
    let r = create_folder(&mut store, &claims(1), &req);
    assert_eq!(r, Err(ApiError::FolderNotFound { folder_id: 40 }));
    assert_eq!(store.folders().len(), 3);
}

#[test]
fn folder_contents_of_a_missing_or_foreign_folder_are_not_found() {
    let store = admin_tree();
    let foreign = get_folder_contents(&store, &claims(2), 1);
    assert_eq!(foreign, Err(ApiError::FolderNotFound { folder_id: 1 }));
    let missing = get_folder_contents(&store, &claims(1), 77);
    assert_eq!(missing, Err(ApiError::FolderNotFound { folder_id: 77 }));
    assert_eq!(foreign.unwrap_err().kind(), ErrorKind::NotFound);
    assert_eq!(missing.unwrap_err().status(), 404);
}

#[test]
fn folder_contents_list_children_photos_and_labels() {
    let mut store = admin_tree();
    folder(&mut store, 1, "admin_2", Some(1));
    folder(&mut store, 2, "other", None);
    let p1 = photo(&mut store, 1, "top", Some(1), 10);
    photo(&mut store, 1, "deep", Some(3), 25);
    photo(&mut store, 1, "mid", Some(2), 40);
    photo(&mut store, 1, "unfiled", None, 1000);
    photo(&mut store, 2, "theirs", Some(5), 7);
    add_tag(&mut store, &claims(1), &AddTagRequest { photo_id: p1, tag: "sunset".to_string() })
        .unwrap();
    add_tag(&mut store, &claims(1), &AddTagRequest { photo_id: p1, tag: "sea".to_string() })
        .unwrap();

    let c = get_folder_contents(&store, &claims(1), 1).unwrap();
    assert_eq!(c.folder.id, 1);
    assert_eq!(c.folder.name, "admin");
    assert_eq!(c.folder.user_id, Some(1));
    assert_eq!(c.folder.total_photo_count, None);
    assert_eq!(c.folder.total_photo_size, None);
    let children: Vec<(i32, Option<usize>, Option<i64>)> =
        c.child_folders.iter().map(|f| (f.id, f.total_photo_count, f.total_photo_size)).collect();
    assert_eq!(children, vec![(2, Some(2), Some(65)), (4, Some(0), Some(0))]);
    assert_eq!(c.photos.len(), 1);
    assert_eq!(c.photos[0].id, p1);
    assert_eq!(c.photos[0].name, "top");
    assert_eq!(c.photos[0].folder_id, Some(1));
    assert_eq!(c.photos[0].folder_name, Some("admin".to_string()));
    assert_eq!(c.photos[0].image_path, "/images/top.jpg");
    assert_eq!(c.photos[0].size_in_bytes, 10);
    assert_eq!(c.photos[0].uploaded_at, 1_700_000_000);
    let labels: Vec<(i32, &str)> =
        c.photos[0].tags.iter().map(|t| (t.id, t.tag.as_str())).collect();
    assert_eq!(labels, vec![(1, "sunset"), (2, "sea")]);
    let crumbs: Vec<i32> = c.breadcrumbs.iter().map(|b| b.id).collect();
    assert_eq!(crumbs, vec![1]);

    let deep = get_folder_contents(&store, &claims(1), 3).unwrap();
    assert!(deep.child_folders.is_empty());
    assert_eq!(deep.photos.len(), 1);
    assert!(deep.photos[0].tags.is_empty());
}

#[test]
fn descendants_and_totals_cover_the_whole_subtree() {
    let mut store = admin_tree();
    folder(&mut store, 1, "admin_2", Some(1));
    folder(&mut store, 2, "other", None);
    assert_eq!(descendant_ids(store.folders(), 1), vec![1, 2, 3, 4]);
    assert_eq!(descendant_ids(store.folders(), 2), vec![2, 3]);
    assert_eq!(descendant_ids(store.folders(), 5), vec![5]);
    assert!(descendant_ids(store.folders(), 9).is_empty());

    assert_eq!(photo_totals(store.folders(), store.photos(), 1, 1), (0, Some(0)));
    photo(&mut store, 1, "a", Some(3), 100);
    assert_eq!(photo_totals(store.folders(), store.photos(), 1, 3), (1, Some(100)));
    assert_eq!(photo_totals(store.folders(), store.photos(), 1, 2), (1, Some(100)));
    assert_eq!(photo_totals(store.folders(), store.photos(), 1, 1), (1, Some(100)));
    assert_eq!(photo_totals(store.folders(), store.photos(), 1, 4), (0, Some(0)));
    photo(&mut store, 1, "b", Some(2), 11);
    assert_eq!(photo_totals(store.folders(), store.photos(), 1, 3), (1, Some(100)));
    assert_eq!(photo_totals(store.folders(), store.photos(), 1, 2), (2, Some(111)));
    assert_eq!(photo_totals(store.folders(), store.photos(), 1, 1), (2, Some(111)));
    assert_eq!(photo_totals(store.folders(), store.photos(), 2, 1), (0, Some(0)));
}

#[test]
fn a_total_that_does_not_fit_is_left_out() {
    let mut store = admin_tree();
    photo(&mut store, 1, "a", Some(2), i64::MAX);
    assert_eq!(photo_totals(store.folders(), store.photos(), 1, 2), (1, Some(i64::MAX)));
    photo(&mut store, 1, "b", Some(3), 1);
    assert_eq!(photo_totals(store.folders(), store.photos(), 1, 2), (2, None));
    let contents = get_folder_contents(&store, &claims(1), 1).unwrap();
    assert_eq!(contents.child_folders[0].total_photo_count, Some(2));
    assert_eq!(contents.child_folders[0].total_photo_size, None);
    photo(&mut store, 1, "c", Some(2), -1);
    assert_eq!(photo_totals(store.folders(), store.photos(), 1, 2), (3, Some(i64::MAX)));
}

#[test]
fn update_folder_renames_only_the_callers_folder() {
    let mut store = admin_tree();
    let req = FolderUpdateRequest {
        name: "renamed".to_string(),
        description: Some("text".to_string()),
        folder_id: 2,
    };
    let foreign = update_folder(&mut store, &claims(2), &req);
    assert_eq!(foreign, Err(ApiError::FolderNotFound { folder_id: 2 }));
    assert_eq!(store.folders()[1].name, "admin_1");
    let updated = update_folder(&mut store, &claims(1), &req).unwrap();
    assert_eq!(updated.id, 2);
    assert_eq!(updated.name, "renamed");
    assert_eq!(updated.description, Some("text".to_string()));
    assert_eq!(updated.parent_id, Some(1));
    assert_eq!(store.folders()[1].name, "renamed");
    assert_eq!(store.folders()[1].description, Some("text".to_string()));
    assert_eq!(store.folders()[1].parent_id, Some(1));
    assert_eq!(store.folders()[0].name, "admin");
}

#[test]
fn deleting_a_folder_takes_its_photos_relations_and_subfolders() {
    let mut store = admin_tree();
    folder(&mut store, 1, "keep", None);
    let p_mid = photo(&mut store, 1, "mid", Some(2), 1);
    let p_deep = photo(&mut store, 1, "deep", Some(3), 1);
    let p_top = photo(&mut store, 1, "top", Some(1), 1);
    let p_keep = photo(&mut store, 1, "kept", Some(4), 1);
    for p in [p_mid, p_deep, p_top, p_keep] {
        add_tag(&mut store, &claims(1), &AddTagRequest { photo_id: p, tag: "t".to_string() })
            .unwrap();
    }
    let req = FolderDeleteRequest { ids: vec![2] };
    let paths = folder_deletion_paths(&store, &claims(1), &req);
    assert_eq!(paths, vec!["/images/mid.jpg".to_string(), "/images/deep.jpg".to_string()]);
    let r = delete_folder(&mut store, &claims(1), &req, None);
    assert_eq!(r, Ok(AppSuccess::Deleted(FileType::Folder)));
    let folders: Vec<i32> = store.folders().iter().map(|f| f.id).collect();
    assert_eq!(folders, vec![1, 4]);
    let photos: Vec<i32> = store.photos().iter().map(|p| p.id).collect();
    assert_eq!(photos, vec![p_top, p_keep]);
    let relations: Vec<i32> = store.relations().iter().map(|r| r.photo_id).collect();
    assert_eq!(relations, vec![p_top, p_keep]);
    for r in store.relations() {
        assert!(store.photos().iter().any(|p| p.id == r.photo_id));
    }
    assert_eq!(store.tags().len(), 1);
}

#[test]
fn deleting_folders_is_all_or_nothing() {
    let mut store = admin_tree();
    folder(&mut store, 2, "theirs", None);
    photo(&mut store, 1, "a", Some(3), 1);
    let req = FolderDeleteRequest { ids: vec![3, 4] };
    let paths = folder_deletion_paths(&store, &claims(1), &req);
    assert_eq!(paths, vec!["/images/a.jpg".to_string()]);
    let r = delete_folder(&mut store, &claims(1), &req, None);
    assert_eq!(r, Err(ApiError::FolderNotFound { folder_id: 4 }));
    assert_eq!(store.folders().len(), 4);
    assert_eq!(store.photos().len(), 1);

    let twice = FolderDeleteRequest { ids: vec![2, 3] };
    let r = delete_folder(&mut store, &claims(1), &twice, None);
    assert_eq!(r, Err(ApiError::FolderNotFound { folder_id: 3 }));
    assert_eq!(store.folders().len(), 4);

    let missing_first = FolderDeleteRequest { ids: vec![9, 3] };
    assert!(folder_deletion_paths(&store, &claims(1), &missing_first).is_empty());
}

#[test]
fn a_blob_failure_leaves_the_folders_as_they_were() {
    let mut store = admin_tree();
    photo(&mut store, 1, "a", Some(3), 1);
    let req = FolderDeleteRequest { ids: vec![3] };
    let r = delete_folder(&mut store, &claims(1), &req, Some("throttled".to_string()));
    assert_eq!(r, Err(ApiError::BlobStore { detail: "throttled".to_string() }));
    assert_eq!(store.folders().len(), 3);
    assert_eq!(store.photos().len(), 1);
    assert_eq!(r.unwrap_err().kind(), ErrorKind::UpstreamError);
}

#[test]
fn deleting_no_folder_succeeds_and_changes_nothing() {
    let mut store = admin_tree();
    let req = FolderDeleteRequest { ids: vec![] };
    assert_eq!(delete_folder(&mut store, &claims(1), &req, None), Ok(AppSuccess::Deleted(FileType::Folder)));
    assert_eq!(store.folders().len(), 3);
}

#[test]
fn children_can_be_deleted_before_their_parent() {
    let mut store = admin_tree();
    let req = FolderDeleteRequest { ids: vec![3, 2, 1] };
    assert_eq!(delete_folder(&mut store, &claims(1), &req, None), Ok(AppSuccess::Deleted(FileType::Folder)));
    assert!(store.folders().is_empty());
}

#[test]
fn error_kinds_and_statuses() {
    assert_eq!(ApiError::FolderNotFound { folder_id: 1 }.status(), 404);
    assert_eq!(ApiError::PhotoNotFound.status(), 404);
    assert_eq!(ApiError::ForeignTag { tag_id: 1 }.status(), 403);
    assert_eq!(ApiError::ForeignPhoto { photo_id: 1 }.status(), 403);
    assert_eq!(ApiError::EmptyIdList.status(), 400);
    assert_eq!(ApiError::BlobStore { detail: String::new() }.status(), 500);
    assert_eq!(ApiError::Internal(AppError::InternalServerError).status(), 500);
    assert_eq!(ApiError::ForeignTag { tag_id: 1 }.kind(), ErrorKind::Forbidden);
    assert_eq!(ApiError::EmptyIdList.kind(), ErrorKind::ValidationError);
    assert_eq!(ApiError::Internal(AppError::CreateFolderFailed).kind(), ErrorKind::TransactionError);
}

#[test]
fn deleting_several_folders_takes_each_with_its_photos_and_names_each_image_once() {
    let mut store = admin_tree();
    let other = folder(&mut store, 1, "other", None);
    let kept = folder(&mut store, 1, "kept", None);
    let p_deep = photo(&mut store, 1, "deep", Some(3), 1);
    let p_other = photo(&mut store, 1, "other", Some(other), 1);
    let p_other_2 = photo(&mut store, 1, "other_2", Some(other), 1);
    let p_kept = photo(&mut store, 1, "kept", Some(kept), 1);
    let p_top = photo(&mut store, 1, "top", Some(1), 1);
    for p in [p_deep, p_other, p_other_2, p_kept, p_top] {
        add_tag(&mut store, &claims(1), &AddTagRequest { photo_id: p, tag: "t".to_string() })
            .unwrap();
    }
    let req = FolderDeleteRequest { ids: vec![other, 3] };
    let paths = folder_deletion_paths(&store, &claims(1), &req);
    assert_eq!(
        paths,
        vec![
            "/images/other.jpg".to_string(),
            "/images/other_2.jpg".to_string(),
            "/images/deep.jpg".to_string(),
        ]
    );
    let before = store.photos().len();
    assert_eq!(
        delete_folder(&mut store, &claims(1), &req, None),
        Ok(AppSuccess::Deleted(FileType::Folder))
    );
    assert_eq!(before - store.photos().len(), paths.len());
    let folders: Vec<i32> = store.folders().iter().map(|f| f.id).collect();
    assert_eq!(folders, vec![1, 2, kept]);
    let photos: Vec<i32> = store.photos().iter().map(|p| p.id).collect();
    assert_eq!(photos, vec![p_kept, p_top]);
    let relations: Vec<i32> = store.relations().iter().map(|r| r.photo_id).collect();
    assert_eq!(relations, vec![p_kept, p_top]);
    for p in store.photos() {
        assert!(store.folders().iter().any(|f| Some(f.id) == p.folder_id));
    }
}
