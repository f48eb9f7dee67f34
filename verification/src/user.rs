//! User accounts.

use vstd::prelude::*;
use crate::clock::current_timestamp;
use crate::ident::{generate_object_id, is_object_id};
use crate::permissions::Permission;
use crate::post::Post;

verus! {

/// A user account.
#[derive(Debug)]
pub struct User {
    /// Twenty-four hexadecimal digits.
    pub id: String,
    pub name: String,
    pub password: String,
    pub email: String,
    pub forgot_mail: Option<String>,
    pub permission: Permission,
    pub posts: Vec<Post>,
    /// Seconds since the start of 1970.
    pub created_at: i64,
    /// Seconds since the start of 1970.
    pub updated_at: i64,
    /// `google` or `email`.
    pub registred_via: String,
    /// The address of the avatar image.
    pub avatar: Option<String>,
    /// The identifiers of the documents the user has seen.
    pub view_list: Vec<String>,
    /// The identifiers of the documents the user likes.
    pub likes: Vec<String>,
    /// The identifiers of the documents the user dislikes.
    pub dislikes: Vec<String>,
    /// The identifiers of the documents the user has marked.
    pub favorites: Vec<String>,
}

impl User {
    /// Whether the account is as it is right after its creation at `now`: a
    /// guest without documents, avatar or marks.
    pub open spec fn is_new_at(&self, now: i64) -> bool {
        &&& self.created_at == now
        &&& self.updated_at == now
        &&& self.permission == Permission::Guest
        &&& self.registred_via@ == Seq::<char>::empty()
        &&& self.avatar is None
        &&& self.posts@.len() == 0
        &&& self.view_list@.len() == 0
        &&& self.likes@.len() == 0
        &&& self.dislikes@.len() == 0
        &&& self.favorites@.len() == 0
    }

    /// The account with the given identifier, created at `now`.
    pub fn assemble(
        id: String,
        now: i64,
        name: String,
        password: String,
        email: String,
        forgot_mail: Option<String>,
    ) -> (user: User)
        ensures
            user.id == id,
            user.name == name,
            user.password == password,
            user.email == email,
            user.forgot_mail == forgot_mail,
            user.is_new_at(now),
    {
        User {
            id,
            name,
            password,
            email,
            forgot_mail,
            permission: Permission::Guest,
            posts: Vec::new(),
            created_at: now,
            updated_at: now,
            registred_via: String::new(),
            avatar: None,
            view_list: Vec::new(),
            likes: Vec::new(),
            dislikes: Vec::new(),
            favorites: Vec::new(),
        }
    }

    /// A new account, with a newly generated identifier, created now.
    pub fn new(name: String, password: String, email: String, forgot_mail: Option<String>) -> (user: User)
        ensures
            is_object_id(user.id@),
            user.name == name,
            user.password == password,
            user.email == email,
            user.forgot_mail == forgot_mail,
            user.is_new_at(user.created_at),
    {
        User::assemble(generate_object_id(), current_timestamp(), name, password, email, forgot_mail)
    }
}

} // verus!
