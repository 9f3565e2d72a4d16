//! The record of a photo archive and what its users may do with it: folders
//! that hang under one another, photos filed in them, labels on the photos.
//!
//! `store` holds the record and what makes it consistent, `restore` and
//! `arrange` make a record of rows that come from elsewhere, `tree` holds
//! the walks through the folders, `handlers` one function for each request,
//! and `laws` what holds across requests. The blob store that keeps the images, the
//! database and the web server stay outside: a handler is told what they
//! answered and says what is to happen next.

pub mod arrange;
pub mod error;
pub mod handlers;
pub mod laws;
pub mod message;
pub mod models;
pub mod restore;
pub mod rows;
pub mod store;
pub mod text;
pub mod tree;
