use vstd::prelude::*;

verus! {

/// A label that a user has made, as it is reported with its owner.
#[derive(Debug, PartialEq, Eq)]
pub struct Tag {
    pub id: i32,
    pub user_id: Option<i32>,
    pub tag: String,
}

/// A label as it is reported beside a photo.
#[derive(Debug, PartialEq, Eq)]
pub struct TagResponse {
    pub id: i32,
    pub tag: String,
}

impl Clone for TagResponse {
    fn clone(&self) -> (r: Self)
        ensures
            r == *self,
    {
        TagResponse { id: self.id, tag: self.tag.clone() }
    }
}

impl From<Tag> for TagResponse {
    fn from(tag: Tag) -> (r: Self) {
        TagResponse { id: tag.id, tag: tag.tag }
    }
}

impl vstd::std_specs::convert::FromSpecImpl<Tag> for TagResponse {
    open spec fn obeys_from_spec() -> bool {
        true
    }

    open spec fn from_spec(tag: Tag) -> Self {
        TagResponse { id: tag.id, tag: tag.tag }
    }
}

/// The request to put one label on one photo.
#[derive(Debug, PartialEq, Eq)]
pub struct AddTagRequest {
    pub photo_id: i32,
    pub tag: String,
}

} // verus!
