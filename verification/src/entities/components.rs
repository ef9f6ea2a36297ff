use rltk::RandomNumberGenerator;
use vstd::prelude::*;

use crate::entities::intents::Interactable;

verus! {

/// A compass direction on the grid, or straight up or down.
#[derive(Clone, Copy, Debug, PartialEq, Eq, Structural, Hash, Default)]
pub enum Direction {
    #[default]
    N,
    NW,
    W,
    SW,
    S,
    SE,
    E,
    NE,
    UP,
    DOWN,
}

/// The first index at which `d` occurs in `sides`, if it occurs.
pub open spec fn first_index_of(sides: Seq<Direction>, d: Direction) -> int
    decreases sides.len(),
{
    if sides.len() == 0 {
        -1
    } else if sides[0] == d {
        0
    } else {
        let rest = first_index_of(sides.drop_first(), d);
        if rest < 0 {
            -1
        } else {
            rest + 1
        }
    }
}

/// `first_index_of` finds the first occurrence, or -1 when there is none.
pub proof fn lemma_first_index_of(sides: Seq<Direction>, d: Direction)
    ensures
        -1 <= first_index_of(sides, d) < sides.len(),
        first_index_of(sides, d) == -1 <==> !sides.contains(d),
        first_index_of(sides, d) >= 0 ==> sides[first_index_of(sides, d)] == d,
        forall|j: int| 0 <= j < first_index_of(sides, d) ==> sides[j] != d,
    decreases sides.len(),
{
    if sides.len() > 0 {
        lemma_first_index_of(sides.drop_first(), d);
        if sides[0] != d {
            if sides.contains(d) {
                let j = choose|j: int| 0 <= j < sides.len() && sides[j] == d;
                assert(sides.drop_first()[j - 1] == d);
            }
            if sides.drop_first().contains(d) {
                let j = choose|j: int| 0 <= j < sides.drop_first().len() && sides.drop_first()[j] == d;
                assert(sides[j + 1] == d);
            }
            assert forall|j: int| 0 <= j < first_index_of(sides, d) implies sides[j] != d by {
                if j > 0 {
                    assert(sides[j] == sides.drop_first()[j - 1]);
                }
            }
        }
    }
}

/// Whether `d` is one of `sides`.
pub fn has_side(sides: &Vec<Direction>, d: Direction) -> (b: bool)
    ensures
        b == sides@.contains(d),
{
    let mut i: usize = 0;
    while i < sides.len()
        invariant
            0 <= i <= sides.len(),
            forall|j: int| 0 <= j < i ==> sides@[j] != d,
        decreases sides.len() - i,
    {
        if sides[i] == d {
            return true;
        }
        i = i + 1;
    }
    false
}

/// The index of the first occurrence of `d` in `sides`, if any.
pub fn find_side(sides: &Vec<Direction>, d: Direction) -> (r: Option<usize>)
    ensures
        match r {
            Some(i) => i == first_index_of(sides@, d),
            None => first_index_of(sides@, d) == -1,
        },
{
    proof {
        lemma_first_index_of(sides@, d);
    }
    let mut i: usize = 0;
    while i < sides.len()
        invariant
            0 <= i <= sides.len(),
            forall|j: int| 0 <= j < i ==> sides@[j] != d,
            -1 <= first_index_of(sides@, d) < sides@.len(),
            first_index_of(sides@, d) == -1 <==> !sides@.contains(d),
            first_index_of(sides@, d) >= 0 ==> sides@[first_index_of(sides@, d)] == d,
            forall|j: int| 0 <= j < first_index_of(sides@, d) ==> sides@[j] != d,
        decreases sides.len() - i,
    {
        if sides[i] == d {
            assert(sides@.contains(d));
            return Some(i);
        }
        i = i + 1;
    }
    assert(!sides@.contains(d));
    None
}

/// Removes the first occurrence of `side_to_remove` from `sides`, if there is one.
pub(crate) fn remove_first(sides: &mut Vec<Direction>, side_to_remove: Direction)
    ensures
        first_index_of(old(sides)@, side_to_remove) >= 0 ==> final(sides)@ == old(sides)@.remove(
            first_index_of(old(sides)@, side_to_remove),
        ),
        first_index_of(old(sides)@, side_to_remove) < 0 ==> final(sides)@ == old(sides)@,
{
    proof {
        lemma_first_index_of(sides@, side_to_remove);
    }
    match find_side(sides, side_to_remove) {
        Some(index) => {
            sides.remove(index);
        },
        None => {},
    }
}

/// What stops movement through the sides of the cell an entity stands on.
#[derive(Clone, Debug)]
pub struct Blocker {
    pub sides: Vec<Direction>,
    pub airtight: bool,
}

impl Blocker {
    pub fn new(sides: Vec<Direction>, airtight: bool) -> (b: Blocker)
        ensures
            b.sides@ == sides@,
            b.airtight == airtight,
    {
        Blocker { sides, airtight }
    }

    /// Blocks the four compass sides.
    pub fn new_cardinal_sides(airtight: bool) -> (b: Blocker)
        ensures
            b.sides@ == seq![Direction::N, Direction::E, Direction::S, Direction::W],
            b.airtight == airtight,
    {
        Blocker { sides: vec![Direction::N, Direction::E, Direction::S, Direction::W], airtight }
    }

    /// Blocks every side but north-east.
    pub fn new_n_s(airtight: bool) -> (b: Blocker)
        ensures
            b.sides@ == every_side_but_north_east(),
            b.airtight == airtight,
    {
        Blocker { sides: vec_every_side_but_north_east(), airtight }
    }

    /// Blocks every side but north-east.
    pub fn new_e_w(airtight: bool) -> (b: Blocker)
        ensures
            b.sides@ == every_side_but_north_east(),
            b.airtight == airtight,
    {
        Blocker { sides: vec_every_side_but_north_east(), airtight }
    }

    /// Blocks the four compass sides, up and down.
    pub fn new_all_sides(airtight: bool) -> (b: Blocker)
        ensures
            b.sides@ == all_sides(),
            b.airtight == airtight,
    {
        Blocker { sides: vec_all_sides(), airtight }
    }

    /// Stops blocking `side_to_remove`: its first occurrence is taken out.
    pub fn remove_side(&mut self, side_to_remove: Direction)
        ensures
            final(self).airtight == old(self).airtight,
            first_index_of(old(self).sides@, side_to_remove) >= 0 ==> final(self).sides@ == old(
                self,
            ).sides@.remove(first_index_of(old(self).sides@, side_to_remove)),
            first_index_of(old(self).sides@, side_to_remove) < 0 ==> final(self).sides@ == old(
                self,
            ).sides@,
    {
        remove_first(&mut self.sides, side_to_remove);
    }
}

/// What stops sight through the sides of the cell an entity stands on.
#[derive(Clone, Debug)]
pub struct VisionBlocker {
    pub sides: Vec<Direction>,
}

impl VisionBlocker {
    pub fn new(sides: Vec<Direction>) -> (b: VisionBlocker)
        ensures
            b.sides@ == sides@,
    {
        VisionBlocker { sides }
    }

    /// Blocks the four compass sides.
    pub fn new_cardinal_sides() -> (b: VisionBlocker)
        ensures
            b.sides@ == seq![Direction::N, Direction::E, Direction::S, Direction::W],
    {
        VisionBlocker { sides: vec![Direction::N, Direction::E, Direction::S, Direction::W] }
    }

    /// Blocks every side but north-east.
    pub fn new_n_s() -> (b: VisionBlocker)
        ensures
            b.sides@ == every_side_but_north_east(),
    {
        VisionBlocker { sides: vec_every_side_but_north_east() }
    }

    /// Blocks every side but north-east.
    pub fn new_e_w() -> (b: VisionBlocker)
        ensures
            b.sides@ == every_side_but_north_east(),
    {
        VisionBlocker { sides: vec_every_side_but_north_east() }
    }

    /// Blocks the four compass sides, up and down.
    pub fn new_all_sides() -> (b: VisionBlocker)
        ensures
            b.sides@ == all_sides(),
    {
        VisionBlocker { sides: vec_all_sides() }
    }

    /// Stops blocking `side_to_remove`: its first occurrence is taken out.
    pub fn remove_side(&mut self, side_to_remove: Direction)
        ensures
            first_index_of(old(self).sides@, side_to_remove) >= 0 ==> final(self).sides@ == old(
                self,
            ).sides@.remove(first_index_of(old(self).sides@, side_to_remove)),
            first_index_of(old(self).sides@, side_to_remove) < 0 ==> final(self).sides@ == old(
                self,
            ).sides@,
    {
        remove_first(&mut self.sides, side_to_remove);
    }
}

/// The sides blocked by the north-south and east-west constructors.
pub open spec fn every_side_but_north_east() -> Seq<Direction> {
    seq![
        Direction::N,
        Direction::NW,
        Direction::W,
        Direction::SW,
        Direction::S,
        Direction::SE,
        Direction::E,
        Direction::UP,
        Direction::DOWN,
    ]
}

/// North, west, south, east, up and down.
pub open spec fn all_sides() -> Seq<Direction> {
    seq![Direction::N, Direction::W, Direction::S, Direction::E, Direction::UP, Direction::DOWN]
}

fn vec_every_side_but_north_east() -> (v: Vec<Direction>)
    ensures
        v@ == every_side_but_north_east(),
{
    let v = vec![
        Direction::N,
        Direction::NW,
        Direction::W,
        Direction::SW,
        Direction::S,
        Direction::SE,
        Direction::E,
        Direction::UP,
        Direction::DOWN,
    ];
    assert(v@ =~= every_side_but_north_east());
    v
}

fn vec_all_sides() -> (v: Vec<Direction>)
    ensures
        v@ == all_sides(),
{
    let v = vec![Direction::N, Direction::W, Direction::S, Direction::E, Direction::UP, Direction::DOWN];
    assert(v@ =~= all_sides());
    v
}

/// A display name.
#[derive(Clone, Debug)]
pub struct Name {
    pub name: String,
}

impl Name {
    pub fn new(name: String) -> (n: Name)
        ensures
            n.name@ == name@,
    {
        Name { name }
    }
}

/// A door that can be opened and closed.
#[derive(Clone, Debug)]
pub struct Door {
    pub open: bool,
    pub interaction_description: String,
    pub interaction_id: u32,
    pub open_glyph: u16,
    pub closed_glyph: u16,
}

/// What interacting with a door does next: close it when open, open it when closed.
pub open spec fn door_action(open: bool) -> Seq<char> {
    if open {
        "Close"@
    } else {
        "Open"@
    }
}

/// How a door is described: `open` or `closed`.
pub open spec fn door_state(open: bool) -> Seq<char> {
    if open {
        "open"@
    } else {
        "closed"@
    }
}

/// A door as plain values: open, the description of its interaction, the
/// interaction's id, and its open and closed glyphs.
pub open spec fn door_view(d: Door) -> (bool, Seq<char>, u32, u16, u16) {
    (d.open, d.interaction_description@, d.interaction_id, d.open_glyph, d.closed_glyph)
}

/// A door after it is opened or closed.
pub open spec fn door_toggled(d: (bool, Seq<char>, u32, u16, u16)) -> (bool, Seq<char>, u32, u16, u16) {
    (!d.0, door_action(!d.0), d.2, d.3, d.4)
}

/// Opening or closing a door twice gives back the door as it was, when its
/// description matches its state, as every door that `Door::new` makes does.
pub proof fn lemma_door_toggle_twice(d: Door)
    requires
        d.interaction_description@ == door_action(d.open),
    ensures
        door_toggled(door_toggled(door_view(d))) == door_view(d),
{
}

impl Door {
    /// A door in the given state with a random interaction id.
    pub fn new(open: bool, open_glyph: u16, closed_glyph: u16, rng: &mut RandomNumberGenerator) -> (d: Door)
        ensures
            d.open == open,
            d.interaction_description@ == door_action(open),
            d.open_glyph == open_glyph,
            d.closed_glyph == closed_glyph,
    {
        let description = if open {
            "Close".to_owned()
        } else {
            "Open".to_owned()
        };
        let id = crate::rng::random_int(rng);
        Door {
            open,
            interaction_description: description,
            interaction_id: id as u32,
            open_glyph,
            closed_glyph,
        }
    }

    /// Opens a closed door or closes an open one.
    pub fn open_close(&mut self)
        ensures
            door_view(*final(self)) == door_toggled(door_view(*old(self))),
            final(self).open == !old(self).open,
            final(self).interaction_description@ == door_action(final(self).open),
            final(self).interaction_id == old(self).interaction_id,
            final(self).open_glyph == old(self).open_glyph,
            final(self).closed_glyph == old(self).closed_glyph,
    {
        self.open = !self.open;
        if self.open {
            self.interaction_description = "Close".to_owned();
        } else {
            self.interaction_description = "Open".to_owned();
        }
    }

    /// `open` or `closed`.
    pub fn state_description(&self) -> (s: String)
        ensures
            s@ == door_state(self.open),
    {
        if self.open {
            "open".to_owned()
        } else {
            "closed".to_owned()
        }
    }
}

impl Interactable for Door {
    fn interact(&mut self)
        ensures
            final(self).open == !old(self).open,
            final(self).interaction_description@ == door_action(final(self).open),
            final(self).interaction_id == old(self).interaction_id,
            final(self).open_glyph == old(self).open_glyph,
            final(self).closed_glyph == old(self).closed_glyph,
    {
        self.open_close();
    }

    fn interaction_id(&self) -> (id: u32)
        ensures
            id == self.interaction_id,
    {
        self.interaction_id
    }

    fn interaction_description(&self) -> (s: String)
        ensures
            s@ == self.interaction_description@,
    {
        self.interaction_description.clone()
    }

    fn state_description(&self) -> (s: String)
        ensures
            s@ == door_state(self.open),
    {
        Door::state_description(self)
    }
}

/// The direction an entity faces or runs in.
#[derive(Clone, Copy, Debug, Default)]
pub struct EntityDirection {
    pub direction: Direction,
}

impl EntityDirection {
    pub fn new(direction: Direction) -> (e: EntityDirection)
        ensures
            e.direction == direction,
    {
        EntityDirection { direction }
    }
}

/// Marks a section of ducting.
#[derive(Clone, Copy, Debug, Default)]
pub struct Duct {}

impl Duct {
    pub fn new() -> Duct {
        Duct {  }
    }
}

/// Marks a prop: an object of the ship rather than a creature.
#[derive(Clone, Copy, Debug, Default)]
pub struct Prop {}

impl Prop {
    pub fn new() -> Self {
        Self {  }
    }
}

/// Marks an entity stored inside the container with id `owner`.
#[derive(Clone, Copy, Debug, Default)]
pub struct InContainer {
    pub owner: u32,
}

impl InContainer {
    pub fn new(entity_id: u32) -> (c: Self)
        ensures
            c.owner == entity_id,
    {
        Self { owner: entity_id }
    }
}

/// Marks an entity fixed in place on the ship.
#[derive(Clone, Copy, Debug, Default)]
pub struct Installed {}

impl Installed {
    pub fn new() -> Self {
        Self {  }
    }
}

} // verus!
