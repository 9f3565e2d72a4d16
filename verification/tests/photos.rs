use photo_archive::error::ApiError;
use photo_archive::handlers::files_handler::{get_all_photos, get_folder_contents};
use photo_archive::handlers::folder_handler::create_folder;
use photo_archive::handlers::photo_handler::{
    delete_photo, move_photo, photo_image_paths, search_photos, update_photo, upload_photo,
};
use photo_archive::handlers::tags_handler::add_tag;
use photo_archive::message::{AppError, AppSuccess, FileType};
use photo_archive::models::folder::FolderCreateRequest;
use photo_archive::models::photo::{
    PhotoDeleteRequest, PhotoMoveRequest, PhotoSearchRequest, PhotoUpdateRequest,
    PhotoUploadRequest,
};
use photo_archive::models::tag::AddTagRequest;
use photo_archive::models::user::Claims;
use photo_archive::store::Store;

fn claims(user_id: i32) -> Claims {
    Claims { user_id, root_folder: 1, exp: 0 }
}

fn folder(store: &mut Store, user: i32, name: &str, parent: Option<i32>) -> i32 {
    let req = FolderCreateRequest { name: name.to_string(), description: None, parent_id: parent };
    create_folder(store, &claims(user), &req).unwrap()
}

fn photo(store: &mut Store, user: i32, name: &str, folder: Option<i32>) -> i32 {
    let req = PhotoUploadRequest {
        name: Some(name.to_string()),
        description: None,
        folder_id: folder,
        image_path: format!("/images/{}.jpg", name),
        size_in_bytes: 5,
    };
    upload_photo(store, &claims(user), &req, 0).unwrap()
}

fn tag(store: &mut Store, user: i32, photo_id: i32, label: &str) -> i32 {
    add_tag(store, &claims(user), &AddTagRequest { photo_id, tag: label.to_string() }).unwrap().id
}

/// Folders 1 (user 1) and 2 (user 2); photos 1, 2 of user 1 in folder 1,
/// photo 3 of user 2 in folder 2.
fn two_users() -> Store {
    let mut store = Store::new();
    folder(&mut store, 1, "mine", None);
    folder(&mut store, 2, "theirs", None);
    photo(&mut store, 1, "p1", Some(1));
    photo(&mut store, 1, "p2", Some(1));
    photo(&mut store, 2, "p3", Some(2));
    store
}

#[test]
fn test() {
    let mut store = Store::new();
    folder(&mut store, 1, "admin", None);
    let req = PhotoUploadRequest {
        name: Some("admin_photo_1".to_string()),
        description: Some("admin photo 1".to_string()),
        folder_id: Some(1),
        image_path: "/images/1.jpg".to_string(),
        size_in_bytes: 2048,
    };
    let id = upload_photo(&mut store, &claims(1), &req, 0).unwrap();
    assert_eq!(id, 1);

    let contents = get_folder_contents(&store, &claims(1), 1).unwrap();
    assert_eq!(contents.photos.len(), 1);
    let photo = &contents.photos[0];
    assert_eq!(photo.id, 1);
    assert_eq!(photo.name, "admin_photo_1");
    assert_eq!(photo.description, Some("admin photo 1".to_string()));
    assert_eq!(photo.image_path, "/images/1.jpg");
    assert_eq!(photo.folder_id, Some(1));

    let del = PhotoDeleteRequest { ids: vec![1] };
    assert_eq!(photo_image_paths(&store, &claims(1), &del), vec!["/images/1.jpg".to_string()]);
    let r = delete_photo(&mut store, &claims(1), &del, &vec![]);
    assert_eq!(r, Ok(AppSuccess::Deleted(FileType::Photo)));
    let contents = get_folder_contents(&store, &claims(1), 1).unwrap();
    assert!(contents.photos.is_empty());
    assert!(get_all_photos(&store, &claims(1)).is_empty());
}

#[test]
fn an_upload_needs_a_name_and_a_folder_of_the_caller() {
    let mut store = two_users();
    let mut req = PhotoUploadRequest {
        name: None,
        description: None,
        folder_id: Some(1),
        image_path: "/images/x.jpg".to_string(),
        size_in_bytes: 1,
    };
    let r = upload_photo(&mut store, &claims(1), &req, 0);
    assert_eq!(r, Err(ApiError::Internal(AppError::UploadFailed(FileType::Photo))));
    req.name = Some("x".to_string());
    req.folder_id = Some(2);
    let r = upload_photo(&mut store, &claims(1), &req, 0);
    assert_eq!(r, Err(ApiError::FolderNotFound { folder_id: 2 }));
    assert_eq!(store.photos().len(), 3);
    req.folder_id = None;
    assert_eq!(upload_photo(&mut store, &claims(1), &req, 12), Ok(4));
    let row = &store.photos()[3];
    assert_eq!((row.id, row.user_id, row.folder_id, row.uploaded_at), (4, 1, None, 12));
    assert_eq!((row.width, row.height, row.size_in_bytes), (0, 0, 1));
}

#[test]
fn all_photos_of_the_caller_are_listed_with_their_folder() {
    let mut store = two_users();
    photo(&mut store, 1, "loose", None);
    let mine = get_all_photos(&store, &claims(1));
    let seen: Vec<(i32, Option<i32>, Option<&str>)> =
        mine.iter().map(|p| (p.id, p.folder_id, p.folder_name.as_deref())).collect();
    assert_eq!(seen, vec![(1, Some(1), Some("mine")), (2, Some(1), Some("mine")), (4, None, None)]);
    let theirs = get_all_photos(&store, &claims(2));
    assert_eq!(theirs.len(), 1);
    assert_eq!(theirs[0].id, 3);
    assert!(get_all_photos(&store, &claims(3)).is_empty());
}

#[test]
fn update_photo_keeps_what_the_request_leaves_out() {
    let mut store = two_users();
    let req = PhotoUpdateRequest { id: 1, name: None, description: Some("d".to_string()) };
    let r = update_photo(&mut store, &claims(1), &req).unwrap();
    assert_eq!((r.id, r.name.as_str(), r.description.as_deref()), (1, "p1", Some("d")));
    let req = PhotoUpdateRequest { id: 1, name: Some("new".to_string()), description: None };
    let r = update_photo(&mut store, &claims(1), &req).unwrap();
    assert_eq!((r.id, r.name.as_str(), r.description.as_deref()), (1, "new", Some("d")));
    assert_eq!(store.photos()[0].name, "new");
    assert_eq!(store.photos()[0].image_path, "/images/p1.jpg");
    let r = update_photo(&mut store, &claims(2), &req);
    assert_eq!(r, Err(ApiError::PhotoNotFound));
    let req = PhotoUpdateRequest { id: 50, name: None, description: None };
    assert_eq!(update_photo(&mut store, &claims(1), &req), Err(ApiError::PhotoNotFound));
}

#[test]
fn move_photos_moves_the_callers_photos_at_once() {
    let mut store = two_users();
    let dest = folder(&mut store, 1, "dest", None);
    let req = PhotoMoveRequest { ids: vec![1, 2], folder_id: dest };
    assert_eq!(move_photo(&mut store, &claims(1), &req), Ok(2));
    assert_eq!(store.photos()[0].folder_id, Some(dest));
    assert_eq!(store.photos()[1].folder_id, Some(dest));
    assert_eq!(store.photos()[2].folder_id, Some(2));
}

#[test]
fn move_photos_passes_over_photos_of_others() {
    let mut store = two_users();
    let dest = folder(&mut store, 1, "dest", None);
    let req = PhotoMoveRequest { ids: vec![1, 3], folder_id: dest };
    assert_eq!(move_photo(&mut store, &claims(1), &req), Ok(1));
    assert_eq!(store.photos()[0].folder_id, Some(dest));
    assert_eq!(store.photos()[1].folder_id, Some(1));
    assert_eq!(store.photos()[2].folder_id, Some(2));
    assert_eq!(store.photos()[2].user_id, 2);
}

#[test]
fn move_photos_refusals() {
    let mut store = two_users();
    let dest = folder(&mut store, 1, "dest", None);
    let all_foreign = PhotoMoveRequest { ids: vec![3, 99], folder_id: dest };
    assert_eq!(move_photo(&mut store, &claims(1), &all_foreign), Err(ApiError::PhotoNotFound));
    let none = PhotoMoveRequest { ids: vec![], folder_id: dest };
    assert_eq!(move_photo(&mut store, &claims(1), &none), Err(ApiError::EmptyIdList));
    let into_foreign = PhotoMoveRequest { ids: vec![1], folder_id: 2 };
    assert_eq!(
        move_photo(&mut store, &claims(1), &into_foreign),
        Err(ApiError::FolderNotFound { folder_id: 2 })
    );
    let folders: Vec<Option<i32>> = store.photos().iter().map(|p| p.folder_id).collect();
    assert_eq!(folders, vec![Some(1), Some(1), Some(2)]);
}

#[test]
fn deleting_a_photo_of_someone_else_is_not_found_and_changes_nothing() {
    let mut store = two_users();
    tag(&mut store, 2, 3, "theirs");
    let req = PhotoDeleteRequest { ids: vec![3] };
    assert!(photo_image_paths(&store, &claims(1), &req).is_empty());
    let r = delete_photo(&mut store, &claims(1), &req, &vec![]);
    assert_eq!(r, Err(ApiError::PhotoNotFound));
    assert_eq!(store.photos().len(), 3);
    assert_eq!(store.photos()[2].id, 3);
    assert_eq!(store.photos()[2].name, "p3");
    assert_eq!(store.relations().len(), 1);
}

#[test]
fn deleting_photos_takes_their_relations_and_spares_the_rest() {
    let mut store = two_users();
    tag(&mut store, 1, 1, "a");
    tag(&mut store, 1, 2, "a");
    tag(&mut store, 2, 3, "a");
    let req = PhotoDeleteRequest { ids: vec![3, 1] };
    assert_eq!(photo_image_paths(&store, &claims(1), &req), vec!["/images/p1.jpg".to_string()]);
    let r = delete_photo(&mut store, &claims(1), &req, &vec![]);
    assert_eq!(r, Ok(AppSuccess::Deleted(FileType::Photo)));
    let ids: Vec<i32> = store.photos().iter().map(|p| p.id).collect();
    assert_eq!(ids, vec![2, 3]);
    let relations: Vec<(i32, i32)> =
        store.relations().iter().map(|r| (r.photo_id, r.tag_id)).collect();
    assert_eq!(relations, vec![(2, 1), (3, 2)]);
}

#[test]
fn blob_errors_are_reported_though_the_photos_are_gone() {
    let mut store = two_users();
    let req = PhotoDeleteRequest { ids: vec![1, 2] };
    let errors = vec!["first".to_string(), "second".to_string()];
    let r = delete_photo(&mut store, &claims(1), &req, &errors);
    assert_eq!(r, Err(ApiError::BlobStore { detail: "first, second".to_string() }));
    assert_eq!(store.photos().len(), 1);
    let mut store = two_users();
    let r = delete_photo(&mut store, &claims(1), &req, &vec!["only".to_string()]);
    assert_eq!(r, Err(ApiError::BlobStore { detail: "only".to_string() }));
}

#[test]
fn deleting_without_ids_is_refused() {
    let mut store = two_users();
    let req = PhotoDeleteRequest { ids: vec![] };
    assert_eq!(delete_photo(&mut store, &claims(1), &req, &vec![]), Err(ApiError::EmptyIdList));
    assert_eq!(store.photos().len(), 3);
}

#[test]
fn search_with_an_empty_text_finds_nothing() {
    let mut store = two_users();
    tag(&mut store, 1, 1, "sunset");
    tag(&mut store, 1, 2, "");
    let r = search_photos(&store, &claims(1), &PhotoSearchRequest { tags: String::new() });
    assert!(r.data.is_empty());
}

#[test]
fn search_finds_photos_with_any_of_the_labels() {
    let mut store = two_users();
    photo(&mut store, 1, "p4", None);
    tag(&mut store, 1, 1, "sunset");
    tag(&mut store, 1, 1, "sea");
    tag(&mut store, 1, 2, "sea");
    tag(&mut store, 1, 4, "forest");
    tag(&mut store, 2, 3, "sea");
    let find = |text: &str| -> Vec<i32> {
        search_photos(&store, &claims(1), &PhotoSearchRequest { tags: text.to_string() })
            .data
            .iter()
            .map(|p| p.id)
            .collect()
    };
    assert_eq!(find("sea"), vec![1, 2]);
    assert_eq!(find("sunset"), vec![1]);
    assert_eq!(find("sunset,sea"), vec![1, 2]);
    assert_eq!(find(" sunset , forest "), vec![1, 4]);
    assert_eq!(find("sea,sea"), vec![1, 2]);
    assert_eq!(find("mountain"), Vec::<i32>::new());
    assert_eq!(find("sun"), Vec::<i32>::new());
    assert_eq!(find("sunset sea"), Vec::<i32>::new());
    let theirs = search_photos(&store, &claims(2), &PhotoSearchRequest { tags: "sea".to_string() });
    assert_eq!(theirs.data.len(), 1);
    assert_eq!(theirs.data[0].id, 3);
    assert_eq!(theirs.data[0].name, "p3");
    assert_eq!(theirs.data[0].image_path, "/images/p3.jpg");
    assert_eq!(theirs.data[0].folder_id, Some(2));
}
