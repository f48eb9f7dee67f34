//! Counters kept for the whole site.

use vstd::prelude::*;

verus! {

/// Site-wide counters.
#[derive(Debug, Clone, Copy, PartialEq, Eq, Structural)]
pub struct Common {
    pub total_view: u32,
    pub total_clicked: u32,
    pub user_count: u32,
    pub post_count: u32,
    pub tag_count: u32,
}

} // verus!
