//! Users of the chat service.

use vstd::prelude::*;

verus! {

/// A registered user.
#[derive(Debug, Clone, PartialEq, Eq)]
pub struct User {
    pub name: String,
}

} // verus!
