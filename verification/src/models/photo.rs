use vstd::prelude::*;
use crate::message::AppError;
use crate::models::tag::TagResponse;

verus! {

/// A photo as it is reported in a listing: the stored fields, the name of its
/// folder and its labels. `uploaded_at` counts the seconds since 1970 (UTC).
#[derive(Debug, PartialEq, Eq)]
pub struct Photo {
    pub id: i32,
    pub user_id: i32,
    pub name: String,
    pub folder_id: Option<i32>,
    pub folder_name: Option<String>,
    pub description: Option<String>,
    pub image_path: String,
    pub uploaded_at: i64,
    pub size_in_bytes: i64,
    pub width: i32,
    pub height: i32,
    pub tags: Vec<TagResponse>,
}

#[derive(Debug, PartialEq, Eq)]
pub struct PhotoUploadRequest {
    pub name: Option<String>,
    pub description: Option<String>,
    pub folder_id: Option<i32>,
    pub image_path: String,
    pub size_in_bytes: i64,
}

#[derive(Debug, PartialEq, Eq)]
pub struct PhotoUpdateRequest {
    pub id: i32,
    pub name: Option<String>,
    pub description: Option<String>,
}

#[derive(Debug, PartialEq, Eq)]
pub struct PhotoMoveRequest {
    pub ids: Vec<i32>,
    pub folder_id: i32,
}

#[derive(Debug, PartialEq, Eq)]
pub struct PhotoDeleteRequest {
    pub ids: Vec<i32>,
}

#[derive(Debug, PartialEq, Eq)]
pub struct PhotoSearchRequest {
    pub tags: String,
}

#[derive(Debug, PartialEq, Eq)]
pub struct PhotoWrapper {
    pub data: Vec<PhotoResponse>,
}

/// A photo as a search reports it.
#[derive(Debug, PartialEq, Eq)]
pub struct PhotoResponse {
    pub id: i32,
    pub name: String,
    pub description: Option<String>,
    pub image_path: String,
    pub folder_id: Option<i32>,
    pub width: i32,
    pub height: i32,
}

/// The request to give each of some photos exactly the listed labels.
#[derive(Debug, PartialEq, Eq)]
pub struct TagAddRequest {
    pub photo_ids: Vec<i32>,
    pub tag_ids: Vec<i32>,
}

/// The text of a moment, given in seconds since 1970 (UTC), as the `time`
/// crate writes it under the description `[year]-[month]-[day]T[hour]:[minute]`;
/// nothing where the moment lies outside the years that the crate can hold.
pub uninterp spec fn minute_text(seconds: int) -> Option<Seq<char>>;

/// `time::OffsetDateTime::from_unix_timestamp`, then
/// `time::OffsetDateTime::format` under the description
/// `[year]-[month]-[day]T[hour]:[minute]`, which `time::format_description::parse`
/// reads. The text depends on the number of seconds alone.
#[verifier::external_body]
#[allow(deprecated)]
fn format_minute(seconds: i64) -> (r: Option<String>)
    ensures
        match r {
            Some(text) => minute_text(seconds as int) == Some(text@),
            None => minute_text(seconds as int) is None,
        },
{
    let format = time::format_description::parse("[year]-[month]-[day]T[hour]:[minute]").ok()?;
    time::OffsetDateTime::from_unix_timestamp(seconds).ok()?.format(&format).ok()
}

/// The moment of an upload as it is written in a listing: year, month, day,
/// hour and minute (UTC).
pub fn serialize_datetime(uploaded_at: i64) -> (r: Result<String, AppError>)
    ensures
        match minute_text(uploaded_at as int) {
            Some(text) => r is Ok && r->Ok_0@ == text,
            None => r == Err::<String, AppError>(AppError::InternalServerError),
        },
{
    match format_minute(uploaded_at) {
        Some(text) => Ok(text),
        None => Err(AppError::InternalServerError),
    }
}

} // verus!
