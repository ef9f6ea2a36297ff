use vstd::prelude::*;

use crate::vectors::Vector3i;

pub mod components;
pub mod entity_index;
pub mod position_map;
pub mod pathfinding;
pub mod tile_blueprints;

pub use components::{Tile, TileKind};
pub use position_map::PositionMap;

verus! {

/// Width of the part of the screen that shows the map.
pub const MAP_SCREEN_WIDTH: i32 = 200;

/// Height of the part of the screen that shows the map.
pub const MAP_SCREEN_HEIGHT: i32 = 75;

/// The cells of the ship, each at its grid position.
pub type TileMap = PositionMap<Tile>;

/// The map position under a mouse position on screen, given where the view is centred.
pub fn mouse_to_map(mouse_position: (i32, i32), viewport_position: Vector3i) -> (p: Vector3i)
    requires
        crate::vectors::fits_i32(mouse_position.0 - MAP_SCREEN_WIDTH / 2),
        crate::vectors::fits_i32(mouse_position.1 - MAP_SCREEN_HEIGHT / 2),
        crate::vectors::fits_i32(mouse_position.0 - MAP_SCREEN_WIDTH / 2 + viewport_position.x),
        crate::vectors::fits_i32(mouse_position.1 - MAP_SCREEN_HEIGHT / 2 + viewport_position.y),
    ensures
        p.x == mouse_position.0 - MAP_SCREEN_WIDTH / 2 + viewport_position.x,
        p.y == mouse_position.1 - MAP_SCREEN_HEIGHT / 2 + viewport_position.y,
        p.z == viewport_position.z,
{
    Vector3i::new(
        mouse_position.0 - (MAP_SCREEN_WIDTH / 2) + viewport_position.x,
        mouse_position.1 - (MAP_SCREEN_HEIGHT / 2) + viewport_position.y,
        viewport_position.z,
    )
}

} // verus!
