use photo_archive::error::ApiError;
use photo_archive::handlers::folder_handler::create_folder;
use photo_archive::handlers::photo_handler::{add_tag_to_photo, upload_photo};
use photo_archive::handlers::tags_handler::{add_or_reuse_tag, add_tag, get_tags};
use photo_archive::models::folder::FolderCreateRequest;
use photo_archive::models::photo::{PhotoUploadRequest, TagAddRequest};
use photo_archive::models::tag::{AddTagRequest, Tag, TagResponse};
use photo_archive::models::user::Claims;
use photo_archive::store::Store;

fn claims(user_id: i32) -> Claims {
    Claims { user_id, root_folder: 1, exp: 0 }
}

fn photo(store: &mut Store, user: i32, name: &str) -> i32 {
    let req = PhotoUploadRequest {
        name: Some(name.to_string()),
        description: None,
        folder_id: None,
        image_path: format!("/images/{}.jpg", name),
        size_in_bytes: 5,
    };
    upload_photo(store, &claims(user), &req, 0).unwrap()
}

/// Photos 1 and 2 of user 1, photo 3 of user 2; labels 1 "a" and 2 "b" of
/// user 1, label 3 "a" of user 2.
fn two_users() -> Store {
    let mut store = Store::new();
    let req = FolderCreateRequest { name: "f".to_string(), description: None, parent_id: None };
    create_folder(&mut store, &claims(1), &req).unwrap();
    photo(&mut store, 1, "p1");
    photo(&mut store, 1, "p2");
    photo(&mut store, 2, "p3");
    assert_eq!(add_or_reuse_tag(&mut store, 1, &"a".to_string()), Ok(1));
    assert_eq!(add_or_reuse_tag(&mut store, 1, &"b".to_string()), Ok(2));
    assert_eq!(add_or_reuse_tag(&mut store, 2, &"a".to_string()), Ok(3));
    store
}

fn relations(store: &Store) -> Vec<(i32, i32)> {
    store.relations().iter().map(|r| (r.photo_id, r.tag_id)).collect()
}

#[test]
fn asking_twice_for_a_label_gives_the_same_id_and_one_row() {
    let mut store = Store::new();
    let first = add_or_reuse_tag(&mut store, 1, &"sunset".to_string()).unwrap();
    let second = add_or_reuse_tag(&mut store, 1, &"sunset".to_string()).unwrap();
    assert_eq!(first, second);
    assert_eq!(store.tags().len(), 1);
    assert_eq!(store.tags()[0].tag, "sunset");
    assert_eq!(store.tags()[0].user_id, 1);
    let other_owner = add_or_reuse_tag(&mut store, 2, &"sunset".to_string()).unwrap();
    assert_ne!(other_owner, first);
    assert_eq!(store.tags().len(), 2);
}

#[test]
fn get_tags_lists_the_callers_labels() {
    let store = two_users();
    let mine = get_tags(&store, &claims(1));
    assert_eq!(
        mine,
        vec![
            Tag { id: 1, user_id: Some(1), tag: "a".to_string() },
            Tag { id: 2, user_id: Some(1), tag: "b".to_string() },
        ]
    );
    assert_eq!(get_tags(&store, &claims(2)).len(), 1);
    assert!(get_tags(&store, &claims(3)).is_empty());
}

#[test]
fn add_tag_reuses_the_label_and_relates_once() {
    let mut store = two_users();
    let req = AddTagRequest { photo_id: 1, tag: "a".to_string() };
    let r = add_tag(&mut store, &claims(1), &req);
    assert_eq!(r, Ok(TagResponse { id: 1, tag: "a".to_string() }));
    let r = add_tag(&mut store, &claims(1), &req);
    assert_eq!(r, Ok(TagResponse { id: 1, tag: "a".to_string() }));
    assert_eq!(relations(&store), vec![(1, 1)]);
    let req = AddTagRequest { photo_id: 1, tag: "new".to_string() };
    let r = add_tag(&mut store, &claims(1), &req);
    assert_eq!(r, Ok(TagResponse { id: 4, tag: "new".to_string() }));
    assert_eq!(relations(&store), vec![(1, 1), (1, 4)]);
    assert_eq!(store.tags().len(), 4);
}

#[test]
fn add_tag_refuses_a_photo_of_someone_else() {
    let mut store = two_users();
    let req = AddTagRequest { photo_id: 3, tag: "fresh".to_string() };
    let r = add_tag(&mut store, &claims(1), &req);
    assert_eq!(r, Err(ApiError::ForeignPhoto { photo_id: 3 }));
    assert_eq!(store.tags().len(), 3);
    assert!(store.relations().is_empty());
    let req = AddTagRequest { photo_id: 30, tag: "fresh".to_string() };
    assert_eq!(add_tag(&mut store, &claims(1), &req), Err(ApiError::ForeignPhoto { photo_id: 30 }));
}

#[test]
fn setting_labels_replaces_what_a_photo_had() {
    let mut store = two_users();
    let both = TagAddRequest { photo_ids: vec![1], tag_ids: vec![1, 2] };
    let r = add_tag_to_photo(&mut store, &claims(1), &both).unwrap();
    assert_eq!(r.len(), 1);
    assert_eq!(r[0].id, 1);
    assert_eq!(
        r[0].tags,
        vec![
            Tag { id: 1, user_id: Some(1), tag: "a".to_string() },
            Tag { id: 2, user_id: Some(1), tag: "b".to_string() },
        ]
    );
    assert_eq!(relations(&store), vec![(1, 1), (1, 2)]);
    let second = TagAddRequest { photo_ids: vec![1], tag_ids: vec![2] };
    let r = add_tag_to_photo(&mut store, &claims(1), &second).unwrap();
    assert_eq!(r.len(), 1);
    assert_eq!(r[0].tags, vec![Tag { id: 2, user_id: Some(1), tag: "b".to_string() }]);
    assert_eq!(relations(&store), vec![(1, 2)]);
}

#[test]
fn setting_labels_on_several_photos_spares_the_others() {
    let mut store = two_users();
    add_tag(&mut store, &claims(2), &AddTagRequest { photo_id: 3, tag: "a".to_string() }).unwrap();
    add_tag(&mut store, &claims(1), &AddTagRequest { photo_id: 2, tag: "b".to_string() }).unwrap();
    let req = TagAddRequest { photo_ids: vec![2, 1, 2], tag_ids: vec![1, 1] };
    let r = add_tag_to_photo(&mut store, &claims(1), &req).unwrap();
    let groups: Vec<(i32, Vec<i32>)> =
        r.iter().map(|g| (g.id, g.tags.iter().map(|t| t.id).collect())).collect();
    assert_eq!(groups, vec![(2, vec![1]), (1, vec![1])]);
    assert_eq!(relations(&store), vec![(3, 3), (1, 1), (2, 1)]);
}

#[test]
fn setting_no_labels_clears_the_photos_and_reports_none() {
    let mut store = two_users();
    add_tag(&mut store, &claims(1), &AddTagRequest { photo_id: 1, tag: "a".to_string() }).unwrap();
    let req = TagAddRequest { photo_ids: vec![1, 2], tag_ids: vec![] };
    let r = add_tag_to_photo(&mut store, &claims(1), &req).unwrap();
    assert!(r.is_empty());
    assert!(store.relations().is_empty());
}

#[test]
fn a_foreign_label_or_photo_is_forbidden_and_nothing_changes() {
    let mut store = two_users();
    add_tag(&mut store, &claims(1), &AddTagRequest { photo_id: 1, tag: "a".to_string() }).unwrap();
    let foreign_tag = TagAddRequest { photo_ids: vec![1], tag_ids: vec![2, 3, 9] };
    let r = add_tag_to_photo(&mut store, &claims(1), &foreign_tag);
    assert_eq!(r, Err(ApiError::ForeignTag { tag_id: 3 }));
    assert_eq!(r.unwrap_err().status(), 403);
    let foreign_photo = TagAddRequest { photo_ids: vec![2, 3], tag_ids: vec![2] };
    let r = add_tag_to_photo(&mut store, &claims(1), &foreign_photo);
    assert_eq!(r, Err(ApiError::ForeignPhoto { photo_id: 3 }));
    let tag_first = TagAddRequest { photo_ids: vec![3], tag_ids: vec![3] };
    let r = add_tag_to_photo(&mut store, &claims(1), &tag_first);
    assert_eq!(r, Err(ApiError::ForeignTag { tag_id: 3 }));
    assert_eq!(relations(&store), vec![(1, 1)]);
}

#[test]
fn tag_response_from_tag() {
    let tag = Tag { id: 7, user_id: Some(2), tag: "x".to_string() };
    assert_eq!(TagResponse::from(tag), TagResponse { id: 7, tag: "x".to_string() });
}
