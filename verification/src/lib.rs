//! Content mutation engine: patch-path compilation and comment-tree
//! maintenance for stored content documents.
//!
//! A patch request is a list of path strings, each with a value.  [`path`]
//! parses a path string, [`fragment`] turns a path and its value into an
//! update instruction, [`merge`] combines the instructions of one request,
//! and [`store`] applies them to a document held in memory.  [`comment`]
//! keeps the comments of a document: comments, replies and likes.
//!
//! The remaining modules hold what stands around the engine: the documents
//! and accounts themselves, identifiers, reading time and the markup it is
//! taken from, queries, uploads, passwords and sessions.

pub mod account;
pub mod clock;
pub mod comment;
pub mod common;
pub mod error;
pub mod fragment;
pub mod ident;
pub mod markup;
pub mod merge;
pub mod path;
pub mod permissions;
pub mod post;
pub mod query;
pub mod reading_time;
pub mod session;
pub mod storage;
pub mod store;
pub mod tag;
pub mod upload;
pub mod text;
pub mod user;
pub mod value;

pub use comment::Comment;
pub use common::Common;
pub use error::EngineError;
pub use fragment::{Fragment, Leaf};
pub use merge::{PatchRequest, UpdateSet};
pub use path::{PatchPath, Segment};
pub use permissions::Permission;
pub use reading_time::calculate_reading_time;
pub use post::{Content, Post, PostStatus, DEFAULT_POST_IMAGE};
pub use tag::Tag;
pub use user::User;
pub use value::Value;
