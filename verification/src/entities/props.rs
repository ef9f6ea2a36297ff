use vstd::prelude::*;

verus! {

/// Marks a storage cabinet.
#[derive(Clone, Copy, Debug, Default)]
pub struct Cabinet {}

impl Cabinet {
    pub fn new() -> Self {
        Self {  }
    }
}

} // verus!
