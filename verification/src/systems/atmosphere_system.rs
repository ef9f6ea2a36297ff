use vstd::prelude::*;

use crate::map::pathfinding::{lemma_popped_keep_complete, lemma_popped_keep_members, popped_keep};
use crate::map::TileMap;
use crate::vectors::utils::{get_neighbours, neighbours_spec, steps_fit};
use crate::vectors::Vector3i;

verus! {

/// A tile that gas can flow into stands at `q`: the map holds a passable tile there.
pub open spec fn gas_can_enter(m: Map<Vector3i, crate::map::Tile>, q: Vector3i) -> bool {
    m.contains_key(q) && m[q].passable
}

/// The eight horizontal neighbours of `p`, taken from the back, that hold a passable tile.
pub open spec fn gas_neighbours_spec(m: Map<Vector3i, crate::map::Tile>, p: Vector3i) -> Seq<Vector3i> {
    popped_keep(neighbours_spec(p), |q: Vector3i| gas_can_enter(m, q))
}

/// `q` is one of the eight cells around `p` on its level.
pub open spec fn horizontally_adjacent(p: Vector3i, q: Vector3i) -> bool {
    &&& q.z == p.z
    &&& -1 <= q.x - p.x <= 1
    &&& -1 <= q.y - p.y <= 1
    &&& !(q.x == p.x && q.y == p.y)
}

/// The eight horizontal neighbours of `p` are exactly the cells around it on its level.
pub proof fn lemma_eight_neighbours(p: Vector3i, q: Vector3i)
    requires
        steps_fit(p),
    ensures
        neighbours_spec(p).contains(q) <==> horizontally_adjacent(p, q),
{
    let nb = neighbours_spec(p);
    if nb.contains(q) {
        let i = choose|i: int| 0 <= i < nb.len() && nb[i] == q;
        assert(0 <= i < 8);
    }
    if horizontally_adjacent(p, q) {
        let (dx, dy) = (q.x - p.x, q.y - p.y);
        let k: int = if dx == 0 && dy == -1 {
            0
        } else if dx == 1 && dy == -1 {
            1
        } else if dx == 1 && dy == 0 {
            2
        } else if dx == 1 && dy == 1 {
            3
        } else if dx == 0 && dy == 1 {
            4
        } else if dx == -1 && dy == 1 {
            5
        } else if dx == -1 && dy == 0 {
            6
        } else {
            7
        };
        assert(nb[k] == q);
    }
}

/// The horizontal neighbours of `position` that gas can spread to: those holding a
/// passable tile, from north-west back round to north.
pub fn get_accessible_neighbours(map: &TileMap, position: Vector3i) -> (r: Vec<Vector3i>)
    requires
        steps_fit(position),
    ensures
        r@ == gas_neighbours_spec(map@, position),
        forall|q: Vector3i|
            #[trigger] r@.contains(q) <==> (horizontally_adjacent(position, q) && map@.contains_key(q)
                && map@[q].passable),
{
    let mut neighbours = get_neighbours(position);
    let mut accessible_neighbours: Vec<Vector3i> = Vec::new();
    let ghost keep = |q: Vector3i| gas_can_enter(map@, q);
    while neighbours.len() > 0
        invariant
            keep == (|q: Vector3i| gas_can_enter(map@, q)),
            accessible_neighbours@ + popped_keep(neighbours@, keep) == popped_keep(neighbours_spec(position), keep),
        decreases neighbours.len(),
    {
        let ghost before = neighbours@;
        let ghost prev_acc = accessible_neighbours@;
        let neighbour = neighbours.pop();
        if let Some(tile_position) = neighbour {
            if let Some(tile) = map.get(tile_position) {
                if tile.passable {
                    accessible_neighbours.push(tile_position);
                }
            }
            proof {
                assert(neighbours@ == before.drop_last());
                assert(tile_position == before.last());
                if keep(tile_position) {
                    assert(accessible_neighbours@ == prev_acc.push(tile_position));
                    assert(popped_keep(before, keep) == seq![tile_position] + popped_keep(neighbours@, keep));
                    assert(prev_acc + (seq![tile_position] + popped_keep(neighbours@, keep))
                        =~= prev_acc.push(tile_position) + popped_keep(neighbours@, keep));
                } else {
                    assert(accessible_neighbours@ == prev_acc);
                    assert(popped_keep(before, keep) == popped_keep(neighbours@, keep));
                }
                assert(accessible_neighbours@ + popped_keep(neighbours@, keep) =~= popped_keep(
                    neighbours_spec(position),
                    keep,
                ));
            }
        }
    }
    assert(accessible_neighbours@ =~= gas_neighbours_spec(map@, position));
    proof {
        assert forall|q: Vector3i| #[trigger] accessible_neighbours@.contains(q) <==> (horizontally_adjacent(
            position,
            q,
        ) && map@.contains_key(q) && map@[q].passable) by {
            lemma_eight_neighbours(position, q);
            lemma_popped_keep_members(neighbours_spec(position), keep, q);
            if horizontally_adjacent(position, q) && map@.contains_key(q) && map@[q].passable {
                lemma_popped_keep_complete(neighbours_spec(position), keep, q);
            }
        }
    }
    accessible_neighbours
}

} // verus!
