use vstd::prelude::*;

use crate::map::components::{Tile, TileKind};

verus! {

/// The tile a blueprint name stands for, once the blueprints are registered.
pub open spec fn blueprint_spec(name: Seq<char>) -> Option<Tile> {
    if name == "glass_hull"@ {
        Some(Tile { passable: false, opaque: false, kind: TileKind::GlassHull })
    } else if name == "hull"@ {
        Some(Tile { passable: false, opaque: true, kind: TileKind::Hull })
    } else if name == "breathable_atmosphere"@ {
        Some(Tile { passable: true, opaque: false, kind: TileKind::BreathableAtmosphere })
    } else if name == "vacuume"@ {
        Some(Tile { passable: true, opaque: false, kind: TileKind::Vacuum })
    } else {
        None
    }
}

/// The named tile blueprints of the game: empty until `initalise` registers
/// the glass hull, hull, breathable atmosphere and vacuum blueprints.
#[derive(Clone, Copy, Debug)]
pub struct TileBlueprints {
    pub initialised: bool,
}

impl TileBlueprints {
    /// A registry that holds no blueprint yet.
    pub fn new() -> (r: TileBlueprints)
        ensures
            !r.initialised,
    {
        TileBlueprints { initialised: false }
    }

    /// Registers the four blueprints.
    pub fn initalise(&mut self)
        ensures
            final(self).initialised,
    {
        self.initialised = true;
    }

    /// The tile registered under `tile_type`, if any.
    pub fn get_tile(&self, tile_type: &str) -> (t: Option<Tile>)
        ensures
            t == (if self.initialised {
                blueprint_spec(tile_type@)
            } else {
                None
            }),
    {
        if !self.initialised {
            return None;
        }
        let name = tile_type.to_owned();
        proof {
            reveal_strlit("glass_hull");
            reveal_strlit("hull");
            reveal_strlit("breathable_atmosphere");
            reveal_strlit("vacuume");
        }
        if name == "glass_hull".to_owned() {
            Some(Tile { passable: false, opaque: false, kind: TileKind::GlassHull })
        } else if name == "hull".to_owned() {
            Some(Tile { passable: false, opaque: true, kind: TileKind::Hull })
        } else if name == "breathable_atmosphere".to_owned() {
            Some(Tile { passable: true, opaque: false, kind: TileKind::BreathableAtmosphere })
        } else if name == "vacuume".to_owned() {
            Some(Tile { passable: true, opaque: false, kind: TileKind::Vacuum })
        } else {
            None
        }
    }
}

} // verus!
