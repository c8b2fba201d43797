use vstd::prelude::*;

verus! {

/// A player as the client names it.
#[derive(Debug, Clone)]
pub struct User {
    /// The identity of the player's device.
    pub id: String,
    pub name: String,
}

} // verus!
