use vstd::prelude::*;

verus! {

/// Something the player can interact with.
pub trait Interactable {
    fn interaction_id(&self) -> u32;

    fn interaction_description(&self) -> String;

    fn state_description(&self) -> String;

    fn interact(&mut self);
}

} // verus!
