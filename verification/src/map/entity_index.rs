use vstd::prelude::*;

use bimap::BiHashMap;

use crate::vectors::Vector3i;

verus! {

/// The two-way map of the `bimap` crate.
#[verifier::external_type_specification]
#[verifier::external_body]
#[verifier::reject_recursive_types(L)]
#[verifier::reject_recursive_types(R)]
#[verifier::reject_recursive_types(LS)]
#[verifier::reject_recursive_types(RS)]
pub struct ExBiHashMap<L, R, LS, RS>(BiHashMap<L, R, LS, RS>);

/// The pairs an entity index holds, as a map from positions to entities.
pub uninterp spec fn index_pairs(index: BiHashMap<Vector3i, u32>) -> Map<Vector3i, u32>;

/// An index with no pairs.
pub open spec fn no_pairs() -> Map<Vector3i, u32> {
    Map::empty()
}

/// `pairs` with the pair of `position` and the pair of `entity` taken out and the
/// pair of the two put in.
pub open spec fn paired(pairs: Map<Vector3i, u32>, position: Vector3i, entity: u32) -> Map<Vector3i, u32> {
    Map::new(
        |p: Vector3i| p == position || (pairs.contains_key(p) && pairs[p] != entity),
        |p: Vector3i|
            if p == position {
                entity
            } else {
                pairs[p]
            },
    )
}

/// Empties `index`, through `BiHashMap::clear`, which clears both of its maps.
#[verifier::external_body]
fn clear_index(index: &mut BiHashMap<Vector3i, u32>)
    ensures
        index_pairs(*final(index)) == no_pairs(),
{
    index.clear();
}

/// Pairs `position` with `entity` in `index`, through `BiHashMap::insert`, which
/// first removes the pair holding `position` and the pair holding `entity`.
#[verifier::external_body]
fn pair_in_index(index: &mut BiHashMap<Vector3i, u32>, position: Vector3i, entity: u32)
    ensures
        index_pairs(*final(index)) == paired(index_pairs(*old(index)), position, entity),
{
    index.insert(position, entity);
}

/// The index after pairing each entity of `placed` with its position, in order.
pub open spec fn index_of(placed: Seq<(u32, Vector3i)>) -> Map<Vector3i, u32>
    decreases placed.len(),
{
    if placed.len() == 0 {
        Map::empty()
    } else {
        paired(index_of(placed.drop_last()), placed.last().1, placed.last().0)
    }
}

/// Keeps the index from map positions to the entities standing there.
pub struct MapIndexSystem {}

impl MapIndexSystem {
    /// Rebuilds `index` from the entities and their positions in `placed`, in order:
    /// a later entity at a position replaces an earlier one.
    pub fn run(&self, index: &mut BiHashMap<Vector3i, u32>, placed: &Vec<(u32, Vector3i)>)
        ensures
            index_pairs(*final(index)) == index_of(placed@),
    {
        clear_index(index);
        let mut i: usize = 0;
        while i < placed.len()
            invariant
                0 <= i <= placed.len(),
                index_pairs(*index) == index_of(placed@.subrange(0, i as int)),
            decreases placed.len() - i,
        {
            let (entity, position) = placed[i];
            pair_in_index(index, position, entity);
            proof {
                assert(placed@.subrange(0, i + 1).drop_last() =~= placed@.subrange(0, i as int));
            }
            i = i + 1;
        }
        proof {
            assert(placed@.subrange(0, placed@.len() as int) =~= placed@);
        }
    }
}

} // verus!
