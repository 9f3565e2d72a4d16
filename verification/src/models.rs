pub mod breadcrumb;
pub mod folder;
pub mod photo;
pub mod tag;
pub mod user;
