use vstd::prelude::*;

verus! {

/// A folder as it is reported: the stored fields, and for a child folder the
/// number and the total size of the photos anywhere below it. The size is
/// left out where the total does not fit the field.
#[derive(Debug, PartialEq, Eq)]
pub struct Folder {
    pub id: i32,
    pub user_id: Option<i32>,
    pub name: String,
    pub description: Option<String>,
    pub parent_id: Option<i32>,
    pub total_photo_count: Option<usize>,
    pub total_photo_size: Option<i64>,
}

#[derive(Debug, PartialEq, Eq)]
pub struct FolderCreateRequest {
    pub name: String,
    pub description: Option<String>,
    pub parent_id: Option<i32>,
}

#[derive(Debug, PartialEq, Eq)]
pub struct FolderUpdateRequest {
    pub name: String,
    pub description: Option<String>,
    pub folder_id: i32,
}

#[derive(Debug, PartialEq, Eq)]
pub struct FolderDeleteRequest {
    pub ids: Vec<i32>,
}

} // verus!
