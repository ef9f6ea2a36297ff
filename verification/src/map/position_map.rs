use std::collections::HashMap;
use vstd::prelude::*;

use crate::vectors::Vector3i;

verus! {

broadcast use vstd::std_specs::hash::group_hash_axioms;

const KEY_OFFSET: i64 = 0x8000_0000;

/// The number under which a position is filed: its three components, each
/// shifted into `0..2^32`, written as the digits of a base `2^32` number.
pub open spec fn key_of(p: Vector3i) -> int {
    (p.x + 0x8000_0000) * 0x1_0000_0000_0000_0000 + (p.y + 0x8000_0000) * 0x1_0000_0000 + (p.z
        + 0x8000_0000)
}

/// Two positions are filed under the same number only when they are equal.
pub proof fn lemma_key_injective(p: Vector3i, q: Vector3i)
    ensures
        key_of(p) == key_of(q) <==> p == q,
{
    let (a1, b1, c1) = (p.x + 0x8000_0000, p.y + 0x8000_0000, p.z + 0x8000_0000);
    let (a2, b2, c2) = (q.x + 0x8000_0000, q.y + 0x8000_0000, q.z + 0x8000_0000);
    if key_of(p) == key_of(q) {
        assert(c1 == c2) by (nonlinear_arith)
            requires
                a1 * 0x1_0000_0000_0000_0000 + b1 * 0x1_0000_0000 + c1 == a2
                    * 0x1_0000_0000_0000_0000 + b2 * 0x1_0000_0000 + c2,
                0 <= c1 < 0x1_0000_0000,
                0 <= c2 < 0x1_0000_0000,
        ;
        assert(b1 == b2) by (nonlinear_arith)
            requires
                a1 * 0x1_0000_0000 + b1 == a2 * 0x1_0000_0000 + b2,
                0 <= b1 < 0x1_0000_0000,
                0 <= b2 < 0x1_0000_0000,
        ;
    }
}

/// The number under which `p` is filed.
fn key(p: Vector3i) -> (k: u128)
    ensures
        k == key_of(p),
{
    let kx = (p.x as i64 + KEY_OFFSET) as u128;
    let ky = (p.y as i64 + KEY_OFFSET) as u128;
    let kz = (p.z as i64 + KEY_OFFSET) as u128;
    assert(kx * 0x1_0000_0000_0000_0000 + ky * 0x1_0000_0000 + kz < 0x1_0000_0000_0000_0000_0000_0000_0000_0000) by (nonlinear_arith)
        requires
            kx < 0x1_0000_0000,
            ky < 0x1_0000_0000,
            kz < 0x1_0000_0000,
    ;
    kx * 0x1_0000_0000_0000_0000 + ky * 0x1_0000_0000 + kz
}

/// Values filed by grid position.
pub struct PositionMap<V> {
    tiles: HashMap<u128, (Vector3i, V)>,
}

impl<V> View for PositionMap<V> {
    type V = Map<Vector3i, V>;

    closed spec fn view(&self) -> Map<Vector3i, V> {
        Map::new(
            |p: Vector3i| self.tiles@.contains_key(key_of(p) as u128),
            |p: Vector3i| self.tiles@[key_of(p) as u128].1,
        )
    }
}

impl<V> PositionMap<V> {
    /// Every stored entry is filed under the number of the position it holds.
    #[verifier::type_invariant]
    closed spec fn filed_by_position(self) -> bool {
        forall|k: u128| #[trigger]
            self.tiles@.contains_key(k) ==> key_of(self.tiles@[k].0) == k
    }

    /// The stored values, listed, are the map's positions with their values.
    proof fn lemma_values_are_entries(self, vals: Seq<(Vector3i, V)>)
        requires
            self.filed_by_position(),
            vals.to_set() == self.tiles@.values(),
        ensures
            forall|p: Vector3i, v: V| #[trigger] vals.contains((p, v)) <==> (self@.contains_key(p) && self@[p] == v),
    {
        assert forall|p: Vector3i, v: V| #[trigger] vals.contains((p, v)) implies (self@.contains_key(p)
            && self@[p] == v) by {
            assert(vals.to_set().contains((p, v)));
            let k = choose|k: u128| #[trigger] self.tiles@.contains_key(k) && self.tiles@[k] == (p, v);
            assert(key_of(p) == k);
        }
        assert forall|p: Vector3i, v: V| self@.contains_key(p) && self@[p] == v implies #[trigger] vals.contains(
            (p, v),
        ) by {
            let k = key_of(p) as u128;
            assert(self.tiles@[k] == (p, v));
            assert(self.tiles@.values().contains((p, v)));
            assert(vals.to_set().contains((p, v)));
        }
    }

}

impl<V: Copy> PositionMap<V> {
    /// An empty map.
    pub fn new() -> (m: PositionMap<V>)
        ensures
            m@ == Map::<Vector3i, V>::empty(),
    {
        let m = PositionMap { tiles: HashMap::new() };
        assert(m@ =~= Map::<Vector3i, V>::empty());
        m
    }

    /// How many positions hold a value; there are finitely many.
    pub fn len(&self) -> (n: usize)
        ensures
            self@.dom().finite(),
            n == self@.dom().len(),
    {
        proof {
            use_type_invariant(self);
            let keys = self.tiles@.dom();
            let f = |k: u128| self.tiles@[k].0;
            assert forall|k1: u128, k2: u128| keys.contains(k1) && keys.contains(k2) && #[trigger] f(k1) == #[trigger] f(
                k2,
            ) implies k1 == k2 by {
                assert(key_of(self.tiles@[k1].0) == k1);
                assert(key_of(self.tiles@[k2].0) == k2);
            }
            assert(keys.map(f) =~= self@.dom()) by {
                assert forall|p: Vector3i| #[trigger] self@.dom().contains(p) implies keys.map(f).contains(p) by {
                    let k = key_of(p) as u128;
                    assert(key_of(self.tiles@[k].0) == k);
                    lemma_key_injective(p, self.tiles@[k].0);
                    assert(f(k) == p);
                }
                assert forall|p: Vector3i| #[trigger] keys.map(f).contains(p) implies self@.dom().contains(p) by {
                    let k = choose|k: u128| keys.contains(k) && f(k) == p;
                    assert(key_of(p) == k);
                }
            }
            vstd::set_lib::lemma_map_size(keys, self@.dom(), f);
        }
        self.tiles.len()
    }

    /// The value at `position`, if there is one.
    pub fn get(&self, position: Vector3i) -> (t: Option<V>)
        ensures
            t == (if self@.contains_key(position) {
                Some(self@[position])
            } else {
                None
            }),
    {
        let k = key(position);
        match self.tiles.get(&k) {
            Some(entry) => Some(entry.1),
            None => None,
        }
    }

    /// Whether a value is filed at `position`.
    pub fn contains(&self, position: Vector3i) -> (b: bool)
        ensures
            b == self@.contains_key(position),
    {
        let k = key(position);
        self.tiles.contains_key(&k)
    }

    /// Files `tile` at `position`, replacing what was filed there.
    pub fn insert(&mut self, position: Vector3i, tile: V)
        ensures
            final(self)@ == old(self)@.insert(position, tile),
    {
        proof {
            use_type_invariant(&*self);
        }
        let k = key(position);
        let mut tiles = HashMap::new();
        std::mem::swap(&mut tiles, &mut self.tiles);
        tiles.insert(k, (position, tile));
        self.tiles = tiles;
        proof {
            assert forall|q: Vector3i| #[trigger] self@.contains_key(q) == old(self)@.insert(
                position,
                tile,
            ).contains_key(q) by {
                lemma_key_injective(q, position);
            }
            assert forall|q: Vector3i| #[trigger] self@.contains_key(q) implies self@[q] == old(
                self,
            )@.insert(position, tile)[q] by {
                lemma_key_injective(q, position);
            }
            assert(self@ =~= old(self)@.insert(position, tile));
        }
    }

    /// Takes away the value at `position`, if any.
    pub fn remove(&mut self, position: Vector3i)
        ensures
            final(self)@ == old(self)@.remove(position),
    {
        proof {
            use_type_invariant(&*self);
        }
        let k = key(position);
        let mut tiles = HashMap::new();
        std::mem::swap(&mut tiles, &mut self.tiles);
        tiles.remove(&k);
        self.tiles = tiles;
        proof {
            assert forall|q: Vector3i| #[trigger] self@.contains_key(q) == old(self)@.remove(
                position,
            ).contains_key(q) by {
                lemma_key_injective(q, position);
            }
            assert forall|q: Vector3i| #[trigger] self@.contains_key(q) implies self@[q] == old(
                self,
            )@.remove(position)[q] by {
                lemma_key_injective(q, position);
            }
            assert(self@ =~= old(self)@.remove(position));
        }
    }

    /// Every filed position with its value, in no particular order.
    pub fn entries(&self) -> (r: Vec<(Vector3i, V)>)
        ensures
            forall|p: Vector3i, v: V| #[trigger] r@.contains((p, v)) <==> (self@.contains_key(p) && self@[p] == v),
    {
        proof {
            use_type_invariant(self);
        }
        let mut r: Vec<(Vector3i, V)> = Vec::new();
        let ghost all = vstd::std_specs::iter::IteratorSpec::remaining(
            &vstd::std_specs::hash::spec_values_iter(&self.tiles),
        );
        for e in it: self.tiles.values()
            invariant
                it.seq() == all,
                r@ == it.seq().take(it.index() as int).unref(),
        {
            proof {
                assert(it.seq().take(it.index() + 1).unref() =~= r@.push(*e));
            }
            r.push(*e);
        }
        proof {
            assert(r@ =~= all.unref());
            self.lemma_values_are_entries(r@);
        }
        r
    }
}

/// A read gives back what a write wrote, and a write leaves every other position as
/// it was; a removed position holds nothing.
pub proof fn lemma_write_then_read<V>(m: Map<Vector3i, V>, written: Vector3i, tile: V, read: Vector3i)
    ensures
        m.insert(written, tile).contains_key(read) == (read == written || m.contains_key(read)),
        read == written ==> m.insert(written, tile)[read] == tile,
        read != written && m.contains_key(read) ==> m.insert(written, tile)[read] == m[read],
        !m.remove(written).contains_key(written),
        read != written ==> m.remove(written).contains_key(read) == m.contains_key(read),
{
}

} // verus!
