//! Content documents.

use vstd::prelude::*;
use crate::clock::current_timestamp;
use crate::comment::{comment_views, Comment, CommentView};
use crate::ident::{generate_object_id, is_object_id};
use crate::text::text_views;

verus! {

/// The image of a document that was given none.
pub const DEFAULT_POST_IMAGE: &'static str =
    "https://www.eska.org.tr/wp-content/uploads/2021/01/k2-winter.jpg";

/// The body of a document, in its two renderings.
#[derive(Debug, PartialEq, Eq)]
pub struct Content {
    pub html: String,
    pub markdown: String,
}

impl Clone for Content {
    fn clone(&self) -> (r: Content)
        ensures
            r.html@ == self.html@,
            r.markdown@ == self.markdown@,
    {
        Content { html: self.html.clone(), markdown: self.markdown.clone() }
    }
}

/// Who may see a document.  A deleted document stays in the store with the
/// status `Deleted`.
#[derive(Debug, Clone, Copy, PartialEq, Eq, Structural)]
pub enum PostStatus {
    Public,
    Private,
    OnlyFriends,
    Deleted,
}

/// A content document.
#[derive(Debug)]
pub struct Post {
    /// Twenty-four hexadecimal digits.
    pub id: String,
    pub title: String,
    /// The author's user identifier.
    pub author: String,
    /// Seconds since the start of 1970.
    pub created_at: i64,
    /// Seconds since the start of 1970.
    pub updated_at: i64,
    /// The address of the image.
    pub image: String,
    pub content: Content,
    /// The identifiers of the users who like the document.
    pub likes: Vec<String>,
    /// The identifiers of the users who dislike the document.
    pub dislikes: Vec<String>,
    pub views: u32,
    pub status: PostStatus,
    pub tags: Vec<String>,
    /// The estimated time to read the document, in minutes.
    pub read_time: u32,
    /// The top-level comments, oldest first.
    pub comments: Vec<Comment>,
}

impl Post {
    /// Whether the document is as it is right after its creation at `now`:
    /// nobody has seen, liked, disliked or commented it.
    pub open spec fn is_new_at(&self, now: i64) -> bool {
        &&& self.created_at == now
        &&& self.updated_at == now
        &&& self.views == 0
        &&& text_views(self.likes@) == Seq::<Seq<char>>::empty()
        &&& text_views(self.dislikes@) == Seq::<Seq<char>>::empty()
        &&& comment_views(self.comments@) == Seq::<CommentView>::empty()
    }

    /// The document with the given identifier, created at `now`.
    pub fn assemble(
        id: String,
        now: i64,
        title: String,
        author: String,
        image: String,
        content: Content,
        status: PostStatus,
        tags: Vec<String>,
        read_time: u32,
    ) -> (post: Post)
        ensures
            post.id == id,
            post.title == title,
            post.author == author,
            post.image == image,
            post.content == content,
            post.status == status,
            post.tags == tags,
            post.read_time == read_time,
            post.is_new_at(now),
    {
        let post = Post {
            id,
            title,
            author,
            created_at: now,
            updated_at: now,
            image,
            content,
            likes: Vec::new(),
            dislikes: Vec::new(),
            views: 0,
            status,
            tags,
            read_time,
            comments: Vec::new(),
        };
        assert(text_views(post.likes@) =~= Seq::<Seq<char>>::empty());
        assert(text_views(post.dislikes@) =~= Seq::<Seq<char>>::empty());
        assert(comment_views(post.comments@) =~= Seq::<CommentView>::empty());
        post
    }

    /// A new document, with a newly generated identifier, created now.
    pub fn new(
        title: String,
        author: String,
        image: String,
        content: Content,
        status: PostStatus,
        tags: Vec<String>,
        read_time: u32,
    ) -> (post: Post)
        ensures
            is_object_id(post.id@),
            post.title == title,
            post.author == author,
            post.image == image,
            post.content == content,
            post.status == status,
            post.tags == tags,
            post.read_time == read_time,
            post.is_new_at(post.created_at),
    {
        Post::assemble(
            generate_object_id(),
            current_timestamp(),
            title,
            author,
            image,
            content,
            status,
            tags,
            read_time,
        )
    }
}

} // verus!
