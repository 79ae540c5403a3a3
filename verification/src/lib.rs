//! A file-backed blog post store.
//!
//! Each post lives in one text file: a small front-matter header holding the
//! title, followed by the free-form body. A post is identified by its slug,
//! which doubles as the file name stem. This crate owns the header codec, the
//! slug-to-path mapping, and the create/read/list/update/delete contract; the
//! actual filesystem calls are left to the embedding program, which hands file
//! contents in and out as plain strings.

pub mod error;
pub mod frontmatter;
pub mod laws;
pub mod memstore;
pub mod model;
pub mod post;
pub mod store;
pub mod text;
