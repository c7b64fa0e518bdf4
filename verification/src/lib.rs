//! GalleryNet core: the decision logic of a self-hosted media gallery,
//! stated with contracts and proved.
use vstd::prelude::*;

pub mod auth;
pub mod connectivity;
pub mod dates;
pub mod download;
pub mod error;
pub mod external;
pub mod filenames;
pub mod folders;
pub mod grouping;
pub mod media;
pub mod models;
pub mod phash;
pub mod photo_meta;
pub mod processing;
pub mod query;
pub mod requests;
pub mod session;
pub mod tagging;
pub mod tasks;
pub mod text;
pub mod union_find;
pub mod upload;

verus! {

} // verus!
