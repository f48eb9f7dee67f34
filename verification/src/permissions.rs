//! What users are allowed to do.

use vstd::prelude::*;
use vstd::string::StringExecFns;

verus! {

/// What a user is allowed to do.
#[derive(Debug, Clone, Copy, PartialEq, Eq, Structural)]
pub enum Permission {
    Banned,
    Guest,
    Author,
    Admin,
}

impl Permission {
    /// The lower-case name under which the permission is stored.
    pub open spec fn name(self) -> Seq<char> {
        match self {
            Permission::Banned => "banned"@,
            Permission::Guest => "guest"@,
            Permission::Author => "author"@,
            Permission::Admin => "admin"@,
        }
    }

    /// The name of the permission, as a string of its own.
    pub fn to_string(&self) -> (s: String)
        ensures
            s@ == self.name(),
    {
        match self {
            Permission::Banned => String::from_str("banned"),
            Permission::Guest => String::from_str("guest"),
            Permission::Author => String::from_str("author"),
            Permission::Admin => String::from_str("admin"),
        }
    }
}

} // verus!
