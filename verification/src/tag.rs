//! Tags of documents.

use vstd::prelude::*;
use crate::text::text_views;

verus! {

/// A tag and the documents that carry it.
#[derive(Debug)]
pub struct Tag {
    pub name: String,
    used_by: Vec<String>,
}

impl Tag {
    /// The name of the tag.
    pub closed spec fn label(&self) -> Seq<char> {
        self.name@
    }

    /// The identifiers of the documents that carry the tag, oldest first.
    pub closed spec fn users(&self) -> Seq<Seq<char>> {
        text_views(self.used_by@)
    }

    /// A tag that no document carries yet.
    pub fn new(name: String) -> (tag: Tag)
        ensures
            tag.label() == name@,
            tag.users() == Seq::<Seq<char>>::empty(),
    {
        let tag = Tag { name, used_by: Vec::new() };
        assert(tag.users() =~= Seq::<Seq<char>>::empty());
        tag
    }

    /// Records that the document `post_id` carries the tag.
    pub fn add(&mut self, post_id: String)
        ensures
            final(self).label() == old(self).label(),
            final(self).users() == old(self).users().push(post_id@),
    {
        self.used_by.push(post_id);
        assert(self.users() =~= old(self).users().push(post_id@));
    }

    /// The name of the tag.
    pub fn name(&self) -> (name: &String)
        ensures
            name@ == self.label(),
    {
        &self.name
    }

    /// The identifiers of the documents that carry the tag, oldest first.
    pub fn used_by(&self) -> (ids: &Vec<String>)
        ensures
            text_views(ids@) == self.users(),
    {
        &self.used_by
    }
}

} // verus!
