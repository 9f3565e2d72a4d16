pub mod auth_handler;
pub mod files_handler;
pub mod folder_handler;
pub mod photo_handler;
pub mod s3_handler;
pub mod tags_handler;
pub mod user_handler;
