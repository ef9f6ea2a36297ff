use vstd::prelude::*;

verus! {

/// Whether something exists at `path` on disk, through `std::path::Path::exists`.
/// What is on disk decides; nothing is stated of the answer.
#[verifier::external_body]
fn path_exists(path: &str) -> bool {
    std::path::Path::new(path).exists()
}

/// Whether a saved game is on disk, in `savegame.json` of the working directory.
pub fn does_save_exist() -> bool {
    path_exists("./savegame.json")
}

} // verus!
